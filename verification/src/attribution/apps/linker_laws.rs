//! What holds of the owners that candidates are given to.

use vstd::prelude::*;

use crate::attribution::apps::candidates::CandidateView;
use crate::attribution::apps::curated::{curated_table, CuratedView, TargetView};
use crate::attribution::apps::linkers::{
    any_lower, any_normal, app_called, app_name_hit, app_named, app_names, bundle_claim,
    bundle_stem, cellar_claim, dependent_claim, exact_hit, formula_hit, formula_named, group_hit,
    group_matches, group_shape, hit_claims, in_claimed, is_claimed, is_owner, is_team, last_two,
    linked, name_hits, normal, open_hit, opt_list, orphan_claim, orphan_claims, own_claims,
    own_names, owned_claims, resolution, row_hits, sharing_claims, someone_called, table_hits,
    telling, tool_hit, unix_style, vendor_hit, Groups,
};
use crate::attribution::apps::owners::{AppView, FormulaView, OwnersView};
use crate::attribution::model::{EntryKind, EvidenceTier};
use crate::fspath::parent;
use crate::seqs::{lemma_picked, lemma_picked_from};
use crate::text::{index_of, lower_case, split, starts};
use crate::text_laws::{free_of, law_first_piece, law_pieces_make_the_text, lemma_first_place};

verus! {

/// Whether one of the hits is an owner's.
pub open spec fn hits_hold(hits: Seq<(Seq<char>, Seq<char>)>, key: Seq<char>) -> bool {
    exists|j: int| 0 <= j < hits.len() && (#[trigger] hits[j]).0 == key
}

/// Whether two texts are the same but for the case of their letters.
pub open spec fn same_letters(a: Seq<char>, b: Seq<char>) -> bool {
    lower_case(a) == lower_case(b)
}

/// A name as names are compared: in small letters, without spaces, hyphens, underscores and dots.
pub open spec fn bare(s: Seq<char>) -> Seq<char> {
    lower_case(s).filter(|c: char| !(c == ' ' || c == '-' || c == '_' || c == '.'))
}

proof fn lemma_bare(s: Seq<char>)
    ensures
        bare(s) == normal(s),
{
    let f = |c: char| !(c == ' ' || c == '-' || c == '_' || c == '.');
    lemma_same_filter(lower_case(s), f, telling());
}

proof fn lemma_same_filter(s: Seq<char>, f: spec_fn(char) -> bool, g: spec_fn(char) -> bool)
    requires
        forall|c: char| #[trigger] f(c) == g(c),
    ensures
        s.filter(f) == s.filter(g),
    decreases s.len(),
{
    reveal(Seq::filter);
    if s.len() > 0 {
        lemma_same_filter(s.drop_last(), f, g);
    }
}

/// Whether a name is surely an app's: its bundle id or that of one of its helpers, or, among the group
/// containers, a group that the app is entitled to; the case of letters aside.
pub open spec fn surely_of(groups: Groups, app: AppView, c: CandidateView) -> bool {
    ||| same_letters(c.name, app.owner.key)
    ||| exists|i: int| 0 <= i < app.aliases.len() && same_letters(c.name, #[trigger] app.aliases[i])
    ||| c.parent_kind == EntryKind::GroupContainer && app.owner.path is Some && groups.contains_key(
        app.owner.path->0,
    ) && exists|i: int|
        0 <= i < groups[app.owner.path->0].len() && same_letters(
            c.name,
            #[trigger] groups[app.owner.path->0][i],
        )
}

proof fn lemma_surely(groups: Groups, app: AppView, c: CandidateView)
    ensures
        surely_of(groups, app, c) <==> exact_hit(groups, c)(app) is Some,
        exact_hit(groups, c)(app) is Some ==> (exact_hit(groups, c)(app)->0).0 == app.owner.key,
{
    let w = lower_case(c.name);
    if any_lower(app.aliases, w) {
        let i = choose|i: int|
            0 <= i < app.aliases.len() && lower_case(#[trigger] app.aliases[i]) == w;
        assert(same_letters(c.name, app.aliases[i]));
    }
    if exists|i: int| 0 <= i < app.aliases.len() && same_letters(c.name, #[trigger] app.aliases[i]) {
        let i = choose|i: int|
            0 <= i < app.aliases.len() && same_letters(c.name, #[trigger] app.aliases[i]);
        assert(lower_case(app.aliases[i]) == w);
    }
    if app.owner.path is Some && groups.contains_key(app.owner.path->0) {
        let g = groups[app.owner.path->0];
        if any_lower(g, w) {
            let i = choose|i: int| 0 <= i < g.len() && lower_case(#[trigger] g[i]) == w;
            assert(same_letters(c.name, g[i]));
        }
        if exists|i: int| 0 <= i < g.len() && same_letters(c.name, #[trigger] g[i]) {
            let i = choose|i: int| 0 <= i < g.len() && same_letters(c.name, #[trigger] g[i]);
            assert(lower_case(g[i]) == w);
        }
    }
}

/// Whether a name is surely some app's.
pub open spec fn surely_someones(owners: OwnersView, groups: Groups, c: CandidateView) -> bool {
    exists|i: int| 0 <= i < owners.apps.len() && surely_of(groups, #[trigger] owners.apps[i], c)
}

/// A directory whose name is an app's bundle id, one of its helpers', or an app group that it is
/// entitled to, belongs to that app by sure evidence; where there is such an app, only such apps own
/// it.
pub proof fn law_bundle_ids_are_sure(
    owners: OwnersView,
    groups: Groups,
    observed: Seq<(Seq<char>, Seq<Seq<char>>)>,
    c: CandidateView,
)
    requires
        surely_someones(owners, groups, c),
    ensures
        resolution(owners, groups, observed, c).1 == EvidenceTier::Exact,
        forall|key: Seq<char>| #[trigger]
            hits_hold(resolution(owners, groups, observed, c).0, key) <==> exists|i: int|
                0 <= i < owners.apps.len() && surely_of(groups, #[trigger] owners.apps[i], c)
                    && owners.apps[i].owner.key == key,
{
    let pick = exact_hit(groups, c);
    let hits = owners.apps.filter_map(pick);
    let n = choose|i: int| 0 <= i < owners.apps.len() && surely_of(groups, #[trigger] owners.apps[i], c);
    lemma_surely(groups, owners.apps[n], c);
    let m = lemma_picked(owners.apps, pick, n);
    assert(hits.len() > 0);
    assert forall|key: Seq<char>| #[trigger]
        hits_hold(resolution(owners, groups, observed, c).0, key) <==> exists|i: int|
            0 <= i < owners.apps.len() && surely_of(groups, #[trigger] owners.apps[i], c)
                && owners.apps[i].owner.key == key by {
        if hits_hold(hits, key) {
            let j = choose|j: int| 0 <= j < hits.len() && (#[trigger] hits[j]).0 == key;
            let i = lemma_picked_from(owners.apps, pick, j);
            lemma_surely(groups, owners.apps[i], c);
            assert(surely_of(groups, owners.apps[i], c));
        }
        if exists|i: int|
            0 <= i < owners.apps.len() && surely_of(groups, #[trigger] owners.apps[i], c)
                && owners.apps[i].owner.key == key {
            let i = choose|i: int|
                0 <= i < owners.apps.len() && surely_of(groups, #[trigger] owners.apps[i], c)
                    && owners.apps[i].owner.key == key;
            lemma_surely(groups, owners.apps[i], c);
            let j = lemma_picked(owners.apps, pick, i);
            assert(hits[j].0 == key);
        }
    }
}

/// Whether a text is a team id: ten letters and digits.
pub open spec fn team_id(s: Seq<char>) -> bool {
    s.len() == 10 && forall|i: int|
        0 <= i < s.len() ==> ('0' <= #[trigger] s[i] <= '9') || ('a' <= s[i] <= 'z') || ('A' <= s[i]
            <= 'Z')
}

/// Whether a bundle id consists of `front`, `a` and `b` with dots between them.
pub open spec fn parted(id: Seq<char>, front: Seq<char>, a: Seq<char>, b: Seq<char>) -> bool {
    free_of(a, '.') && free_of(b, '.') && id == front + seq!['.'] + a + seq!['.'] + b
}

/// Whether `tail` is a bundle id or its last two parts.
pub open spec fn end_of_id(tail: Seq<char>, id: Seq<char>) -> bool {
    tail == id || exists|front: Seq<char>, a: Seq<char>, b: Seq<char>| #[trigger]
        parted(id, front, a, b) && tail == a + seq!['.'] + b
}

/// Whether a group's name is built from `tail`: with `group.` before it, with a team id before it, or
/// with both.
pub open spec fn group_name(name: Seq<char>, tail: Seq<char>, team: Seq<char>) -> bool {
    ||| name == "group."@ + tail
    ||| team_id(team) && name == team + seq!['.'] + tail
    ||| team_id(team) && name == team + seq!['.'] + ("group."@ + tail)
}

proof fn lemma_split_concat(a: Seq<char>, b: Seq<char>, c: char)
    ensures
        split(a + seq![c] + b, c) == split(a, c) + split(b, c),
    decreases a.len(),
{
    crate::text::lemma_span(a, crate::text::other_than(c));
    let k = index_of(a, c) as int;
    if k >= a.len() {
        assert(free_of(a, c)) by {
            assert forall|j: int| 0 <= j < a.len() implies #[trigger] a[j] != c by {
                assert(crate::text::other_than(c)(a[j]));
            }
        }
        law_first_piece(a, b, c);
    } else {
        let x = a.take(k);
        let y = a.skip(k + 1);
        assert(free_of(x, c)) by {
            assert forall|j: int| 0 <= j < x.len() implies #[trigger] x[j] != c by {
                assert(crate::text::other_than(c)(a[j]));
            }
        }
        assert(a[k] == c);
        assert(a =~= x + seq![c] + y);
        assert(a + seq![c] + b =~= x + seq![c] + (y + seq![c] + b));
        law_first_piece(x, y, c);
        law_first_piece(x, y + seq![c] + b, c);
        lemma_split_concat(y, b, c);
        assert(split(a + seq![c] + b, c) =~= split(a, c) + split(b, c));
    }
}

/// The last two parts of a bundle id.
pub proof fn law_last_two_parts(front: Seq<char>, a: Seq<char>, b: Seq<char>)
    requires
        free_of(a, '.'),
        free_of(b, '.'),
    ensures
        last_two(a + seq!['.'] + b) == Some(a + seq!['.'] + b),
        last_two(front + seq!['.'] + a + seq!['.'] + b) == Some(a + seq!['.'] + b),
{
    reveal_strlit(".");
    assert("."@ =~= seq!['.']);
    law_first_piece(a, b, '.');
    law_first_piece(b, seq![], '.');
    let two = a + seq!['.'] + b;
    assert(split(two, '.') =~= seq![a, b]);
    assert(front + seq!['.'] + a + seq!['.'] + b =~= front + seq!['.'] + two);
    lemma_split_concat(front, two, '.');
    law_pieces_make_the_text(front, '.');
}

proof fn lemma_group_matches(name: Seq<char>, id: Seq<char>, tail: Seq<char>, team: Seq<char>)
    requires
        end_of_id(tail, id),
        group_name(name, tail, team),
    ensures
        group_matches(name, id),
{
    assert(tail == id || last_two(id) == Some(tail)) by {
        if tail != id {
            let (front, a, b) = choose|front: Seq<char>, a: Seq<char>, b: Seq<char>| #[trigger]
                parted(id, front, a, b) && tail == a + seq!['.'] + b;
            law_last_two_parts(front, a, b);
        }
    }
    if name == "group."@ + tail {
        assert(group_shape(name, id));
    } else {
        let rest = if name == team + seq!['.'] + tail {
            tail
        } else {
            "group."@ + tail
        };
        assert(free_of(team, '.')) by {
            assert forall|j: int| 0 <= j < team.len() implies #[trigger] team[j] != '.' by {}
        }
        lemma_first_place(team, rest, '.');
        assert(is_team(team)) by {
            assert forall|i: int| 0 <= i < team.len() implies crate::attribution::apps::linkers::is_plain(
                #[trigger] team[i],
            ) by {}
        }
        assert(group_shape("group."@ + tail, id));
    }
}

/// A group container whose name is built from an app's bundle id, or from its last two parts, belongs
/// to the app by sure evidence, unless its name is surely another's.
pub proof fn law_group_containers_are_known_by_their_shape(
    owners: OwnersView,
    groups: Groups,
    observed: Seq<(Seq<char>, Seq<Seq<char>>)>,
    c: CandidateView,
    i: int,
    tail: Seq<char>,
    team: Seq<char>,
)
    requires
        !surely_someones(owners, groups, c),
        c.parent_kind == EntryKind::GroupContainer,
        0 <= i < owners.apps.len(),
        end_of_id(tail, lower_case(owners.apps[i].owner.key)),
        group_name(lower_case(c.name), tail, team),
    ensures
        resolution(owners, groups, observed, c).1 == EvidenceTier::Exact,
        hits_hold(resolution(owners, groups, observed, c).0, owners.apps[i].owner.key),
{
    lemma_none_sure(owners, groups, c);
    lemma_group_matches(lower_case(c.name), lower_case(owners.apps[i].owner.key), tail, team);
    let j = lemma_picked(owners.apps, group_hit(c), i);
    assert(owners.apps.filter_map(group_hit(c))[j].0 == owners.apps[i].owner.key);
}

proof fn lemma_none_sure(owners: OwnersView, groups: Groups, c: CandidateView)
    requires
        !surely_someones(owners, groups, c),
    ensures
        owners.apps.filter_map(exact_hit(groups, c)).len() == 0,
{
    let hits = owners.apps.filter_map(exact_hit(groups, c));
    if hits.len() > 0 {
        let i = lemma_picked_from(owners.apps, exact_hit(groups, c), 0);
        lemma_surely(groups, owners.apps[i], c);
        assert(surely_of(groups, owners.apps[i], c));
    }
}

/// Nothing but a bundle id, an entitled group or a group's shape is sure evidence.
pub proof fn law_sure_evidence(
    owners: OwnersView,
    groups: Groups,
    observed: Seq<(Seq<char>, Seq<Seq<char>>)>,
    c: CandidateView,
    key: Seq<char>,
)
    requires
        resolution(owners, groups, observed, c).1 == EvidenceTier::Exact,
        hits_hold(resolution(owners, groups, observed, c).0, key),
    ensures
        exists|i: int|
            0 <= i < owners.apps.len() && (#[trigger] owners.apps[i]).owner.key == key && (surely_of(
                groups,
                owners.apps[i],
                c,
            ) || (c.parent_kind == EntryKind::GroupContainer && exists|tail: Seq<char>, team: Seq<
                char,
            >| #[trigger]
                group_name(lower_case(c.name), tail, team) && (tail == lower_case(
                    owners.apps[i].owner.key,
                ) || last_two(lower_case(owners.apps[i].owner.key)) == Some(tail)))),
{
    let hits = resolution(owners, groups, observed, c).0;
    let j = choose|j: int| 0 <= j < hits.len() && (#[trigger] hits[j]).0 == key;
    if owners.apps.filter_map(exact_hit(groups, c)).len() > 0 {
        let i = lemma_picked_from(owners.apps, exact_hit(groups, c), j);
        lemma_surely(groups, owners.apps[i], c);
        assert(owners.apps[i].owner.key == key);
    } else {
        let i = lemma_picked_from(owners.apps, group_hit(c), j);
        let name = lower_case(c.name);
        let id = lower_case(owners.apps[i].owner.key);
        assert(owners.apps[i].owner.key == key);
        let k = index_of(name, '.') as int;
        let rest = name.skip(k + 1);
        let team = name.take(k);
        if group_shape(name, id) {
            if name == "group."@ + id {
                assert(group_name(name, id, team));
            } else {
                assert(group_name(name, last_two(id)->0, team));
            }
        } else {
            crate::text::lemma_span(name, crate::text::other_than('.'));
            assert(name[k] == '.');
            assert(name =~= team + seq!['.'] + rest);
            assert(team_id(team)) by {
                assert forall|i: int| 0 <= i < team.len() implies ('0' <= #[trigger] team[i] <= '9')
                    || ('a' <= team[i] <= 'z') || ('A' <= team[i] <= 'Z') by {
                    assert(crate::attribution::apps::linkers::is_plain(team[i]));
                }
            }
            if rest == id {
                assert(group_name(name, id, team));
            } else if Some(rest) == last_two(id) {
                assert(group_name(name, rest, team));
            } else if rest == "group."@ + id {
                assert(group_name(name, id, team));
            } else {
                assert(group_name(name, last_two(id)->0, team));
            }
        }
    }
}

/// Whether a name stands for a formula: its own or that of one of its programs.
pub open spec fn names_formula(f: FormulaView, c: CandidateView) -> bool {
    bare(f.owner.name) == bare(c.name) || exists|i: int|
        0 <= i < f.bin_names.len() && bare(#[trigger] f.bin_names[i]) == bare(c.name)
}

/// Whether a formula or a tool of this key bears the candidate's name.
pub open spec fn names_program(owners: OwnersView, c: CandidateView, key: Seq<char>) -> bool {
    ||| exists|i: int|
        0 <= i < owners.formulae.len() && names_formula(#[trigger] owners.formulae[i], c)
            && owners.formulae[i].owner.key == key
    ||| exists|i: int|
        0 <= i < owners.tools.len() && bare((#[trigger] owners.tools[i]).owner.name) == bare(c.name)
            && owners.tools[i].owner.key == key
}

/// Whether one of the names that an app's bundle gives is the candidate's: the bundle's own, the one
/// that is shown, the program's, the file's, or a cask's.
pub open spec fn names_app(app: AppView, c: CandidateView) -> bool {
    ||| app.bundle_name is Some && bare(app.bundle_name->0) == bare(c.name)
    ||| app.display_name is Some && bare(app.display_name->0) == bare(c.name)
    ||| app.executable is Some && bare(app.executable->0) == bare(c.name)
    ||| bundle_stem(app) is Some && bare(bundle_stem(app)->0) == bare(c.name)
    ||| exists|i: int|
        0 <= i < app.cask_names.len() && bare(#[trigger] app.cask_names[i]) == bare(c.name)
}

proof fn lemma_any_normal(names: Seq<Seq<char>>, name: Seq<char>)
    ensures
        any_normal(names, normal(name)) <==> exists|i: int|
            0 <= i < names.len() && bare(#[trigger] names[i]) == bare(name),
{
    lemma_bare(name);
    assert forall|i: int| 0 <= i < names.len() implies bare(#[trigger] names[i]) == normal(
        names[i],
    ) by {
        lemma_bare(names[i]);
    }
    if any_normal(names, normal(name)) {
        let i = choose|i: int| 0 <= i < names.len() && normal(#[trigger] names[i]) == normal(name);
        assert(bare(names[i]) == bare(name));
    }
    if exists|i: int| 0 <= i < names.len() && bare(#[trigger] names[i]) == bare(name) {
        let i = choose|i: int| 0 <= i < names.len() && bare(#[trigger] names[i]) == bare(name);
        assert(normal(names[i]) == normal(name));
    }
}

proof fn lemma_names_app(app: AppView, c: CandidateView)
    requires
        names_app(app, c),
    ensures
        any_normal(app_names(app), normal(c.name)),
{
    lemma_bare(c.name);
    let n = app_names(app);
    let own = own_names(app);
    let a = opt_list(app.bundle_name);
    let b = opt_list(app.display_name);
    let e = opt_list(app.executable);
    let s = opt_list(bundle_stem(app));
    assert forall|i: int| 0 <= i < own.len() implies n[i] == #[trigger] own[i] by {}
    if app.bundle_name is Some && bare(app.bundle_name->0) == bare(c.name) {
        lemma_bare(app.bundle_name->0);
        assert(own[0] == app.bundle_name->0);
        assert(normal(n[0]) == normal(c.name));
    } else if app.display_name is Some && bare(app.display_name->0) == bare(c.name) {
        lemma_bare(app.display_name->0);
        let k = a.len() as int;
        assert(own[k] == app.display_name->0);
        assert(normal(n[k]) == normal(c.name));
    } else if app.executable is Some && bare(app.executable->0) == bare(c.name) {
        lemma_bare(app.executable->0);
        let k = (a.len() + b.len()) as int;
        assert(own[k] == app.executable->0);
        assert(normal(n[k]) == normal(c.name));
    } else if bundle_stem(app) is Some && bare(bundle_stem(app)->0) == bare(c.name) {
        lemma_bare(bundle_stem(app)->0);
        let k = (a.len() + b.len() + e.len()) as int;
        assert(own[k] == bundle_stem(app)->0);
        assert(normal(n[k]) == normal(c.name));
    } else {
        let i = choose|i: int|
            0 <= i < app.cask_names.len() && bare(#[trigger] app.cask_names[i]) == bare(c.name);
        lemma_bare(app.cask_names[i]);
        let k = n.len() - app.cask_names.len() + i;
        assert(n[k] == app.cask_names[i]);
        assert(normal(n[k]) == normal(c.name));
    }
}

proof fn lemma_program_hits(owners: OwnersView, c: CandidateView, key: Seq<char>)
    ensures
        hits_hold(
            owners.formulae.filter_map(formula_hit(c)) + owners.tools.filter_map(tool_hit(c)),
            key,
        ) <==> names_program(owners, c, key),
{
    let fs = owners.formulae.filter_map(formula_hit(c));
    let ts = owners.tools.filter_map(tool_hit(c));
    let cli = fs + ts;
    lemma_bare(c.name);
    if hits_hold(cli, key) {
        let j = choose|j: int| 0 <= j < cli.len() && (#[trigger] cli[j]).0 == key;
        if j < fs.len() {
            assert(cli[j] == fs[j]);
            let i = lemma_picked_from(owners.formulae, formula_hit(c), j);
            let f = owners.formulae[i];
            lemma_bare(f.owner.name);
            lemma_any_normal(f.bin_names, c.name);
            assert(names_formula(owners.formulae[i], c));
        } else {
            assert(cli[j] == ts[j - fs.len()]);
            let i = lemma_picked_from(owners.tools, tool_hit(c), j - fs.len());
            lemma_bare(owners.tools[i].owner.name);
            assert(bare(owners.tools[i].owner.name) == bare(c.name));
        }
    }
    if names_program(owners, c, key) {
        if exists|i: int|
            0 <= i < owners.formulae.len() && names_formula(#[trigger] owners.formulae[i], c)
                && owners.formulae[i].owner.key == key {
            let i = choose|i: int|
                0 <= i < owners.formulae.len() && names_formula(#[trigger] owners.formulae[i], c)
                    && owners.formulae[i].owner.key == key;
            let f = owners.formulae[i];
            lemma_bare(f.owner.name);
            lemma_any_normal(f.bin_names, c.name);
            let j = lemma_picked(owners.formulae, formula_hit(c), i);
            assert(cli[j] == fs[j]);
        } else {
            let i = choose|i: int|
                0 <= i < owners.tools.len() && bare((#[trigger] owners.tools[i]).owner.name) == bare(
                    c.name,
                ) && owners.tools[i].owner.key == key;
            lemma_bare(owners.tools[i].owner.name);
            let j = lemma_picked(owners.tools, tool_hit(c), i);
            assert(cli[fs.len() + j] == ts[j]);
        }
    }
}

/// Whether a path leads through a directory whose name starts with a dot.
pub open spec fn hidden_way(p: Seq<Seq<char>>) -> bool {
    exists|i: int| 0 <= i < p.len() && (#[trigger] p[i]).len() > 0 && p[i][0] == '.'
}

/// In hidden directories a formula or a tool that bears the candidate's name owns it, whatever app
/// bears the name too, unless the evidence is sure; elsewhere it does where no app is named so.
pub proof fn law_programs_own_what_bears_their_name(
    owners: OwnersView,
    groups: Groups,
    observed: Seq<(Seq<char>, Seq<Seq<char>>)>,
    c: CandidateView,
    key: Seq<char>,
)
    requires
        resolution(owners, groups, observed, c).1 != EvidenceTier::Exact,
        names_program(owners, c, key),
        hidden_way(c.path) || forall|i: int|
            0 <= i < owners.apps.len() ==> !app_named(#[trigger] owners.apps[i], c),
    ensures
        resolution(owners, groups, observed, c).1 == EvidenceTier::NameMatch,
        hits_hold(resolution(owners, groups, observed, c).0, key),
        forall|k: Seq<char>| #[trigger]
            hits_hold(resolution(owners, groups, observed, c).0, k) <==> names_program(
                owners,
                c,
                k,
            ),
{
    let cli = owners.formulae.filter_map(formula_hit(c)) + owners.tools.filter_map(tool_hit(c));
    let apps = owners.apps.filter_map(app_name_hit(owners.apps, c));
    lemma_program_hits(owners, c, key);
    assert(cli.len() > 0);
    assert(name_hits(owners, c) == cli) by {
        if apps.len() > 0 && !hidden_way(c.path) {
            let i = lemma_picked_from(owners.apps, app_name_hit(owners.apps, c), 0);
            assert(app_named(owners.apps[i], c));
        }
        if hidden_way(c.path) {
            assert(unix_style(c.path));
        }
    }
    assert forall|k: Seq<char>| #[trigger]
        hits_hold(resolution(owners, groups, observed, c).0, k) <==> names_program(owners, c, k) by {
        lemma_program_hits(owners, c, k);
    }
}

/// Outside hidden directories an app whose bundle's file bears the candidate's name owns it, whatever
/// else bears the name, unless the evidence is sure; it has to be of the candidate's vendor, where
/// there is one.
pub proof fn law_apps_own_what_bears_their_name(
    owners: OwnersView,
    groups: Groups,
    observed: Seq<(Seq<char>, Seq<Seq<char>>)>,
    c: CandidateView,
    i: int,
)
    requires
        resolution(owners, groups, observed, c).1 != EvidenceTier::Exact,
        0 <= i < owners.apps.len(),
        names_app(owners.apps[i], c),
        c.vendor is None || ({
            let parts = split(owners.apps[i].owner.key, '.');
            parts.len() >= 2 && bare(parts[1]) == bare(c.vendor->0)
        }),
        (bundle_stem(owners.apps[i]) is Some && bare(bundle_stem(owners.apps[i])->0) == bare(c.name))
            || forall|j: int|
            0 <= j < owners.apps.len() ==> !(bundle_stem(#[trigger] owners.apps[j]) is Some && bare(
                bundle_stem(owners.apps[j])->0,
            ) == bare(c.name)),
        !hidden_way(c.path) || forall|key: Seq<char>| !(#[trigger] names_program(owners, c, key)),
    ensures
        resolution(owners, groups, observed, c).1 == EvidenceTier::NameMatch,
        hits_hold(resolution(owners, groups, observed, c).0, owners.apps[i].owner.key),
{
    let app = owners.apps[i];
    lemma_names_app(app, c);
    lemma_bare(c.name);
    if c.vendor is Some {
        lemma_bare(split(app.owner.key, '.')[1]);
        lemma_bare(c.vendor->0);
    }
    assert(app_named(app, c));
    if bundle_stem(app) is Some {
        lemma_bare(bundle_stem(app)->0);
    }
    let pick = app_name_hit(owners.apps, c);
    assert(app_called(app, c) || !someone_called(owners.apps, c)) by {
        if !app_called(app, c) && someone_called(owners.apps, c) {
            let j = choose|j: int| 0 <= j < owners.apps.len() && app_called(#[trigger] owners.apps[j], c);
            lemma_bare(bundle_stem(owners.apps[j])->0);
            assert(bare(bundle_stem(owners.apps[j])->0) == bare(c.name));
        }
    }
    let k = lemma_picked(owners.apps, pick, i);
    let apps = owners.apps.filter_map(pick);
    let cli = owners.formulae.filter_map(formula_hit(c)) + owners.tools.filter_map(tool_hit(c));
    assert(name_hits(owners, c) == apps) by {
        if cli.len() > 0 && unix_style(c.path) {
            assert(hidden_way(c.path));
            lemma_program_hits(owners, c, cli[0].0);
            assert(hits_hold(cli, cli[0].0));
            assert(names_program(owners, c, cli[0].0));
        }
    }
    assert(apps[k].0 == app.owner.key);
}

/// What a name match rests on: the name of a program, or of an app of the candidate's vendor, which
/// may also be the last part of its bundle id where that is related to another of its names.
pub proof fn law_name_matches(
    owners: OwnersView,
    groups: Groups,
    observed: Seq<(Seq<char>, Seq<Seq<char>>)>,
    c: CandidateView,
    key: Seq<char>,
)
    requires
        resolution(owners, groups, observed, c).1 == EvidenceTier::NameMatch,
        hits_hold(resolution(owners, groups, observed, c).0, key),
    ensures
        names_program(owners, c, key) || exists|i: int|
            0 <= i < owners.apps.len() && (#[trigger] owners.apps[i]).owner.key == key && (names_app(
                owners.apps[i],
                c,
            ) || bare(crate::attribution::apps::linkers::last_piece(key)) == bare(c.name)) && (
            c.vendor is Some ==> split(key, '.').len() >= 2 && bare(split(key, '.')[1]) == bare(
                c.vendor->0,
            )),
{
    let hits = name_hits(owners, c);
    let apps = owners.apps.filter_map(app_name_hit(owners.apps, c));
    let cli = owners.formulae.filter_map(formula_hit(c)) + owners.tools.filter_map(tool_hit(c));
    let j = choose|j: int| 0 <= j < hits.len() && (#[trigger] hits[j]).0 == key;
    if hits == cli {
        lemma_program_hits(owners, c, key);
    } else {
        let i = lemma_picked_from(owners.apps, app_name_hit(owners.apps, c), j);
        let app = owners.apps[i];
        assert(app.owner.key == key);
        lemma_bare(c.name);
        let n = app_names(app);
        let m = choose|m: int| 0 <= m < n.len() && normal(#[trigger] n[m]) == normal(c.name);
        lemma_bare(n[m]);
        let own = own_names(app);
        if c.vendor is Some {
            lemma_bare(split(key, '.')[1]);
            lemma_bare(c.vendor->0);
        }
        let last = crate::attribution::apps::linkers::last_piece(key);
        if m < own.len() {
            assert(n[m] == own[m]);
            assert(names_app(app, c));
        } else if m >= n.len() - app.cask_names.len() {
            let x = m - (n.len() - app.cask_names.len());
            assert(n[m] == app.cask_names[x]);
            assert(names_app(app, c));
        } else {
            assert(n[m] == last);
        }
    }
}

/// What a process of an app has open is the app's, where neither bundle ids nor names tell.
pub proof fn law_open_paths_are_their_processes(
    owners: OwnersView,
    groups: Groups,
    observed: Seq<(Seq<char>, Seq<Seq<char>>)>,
    c: CandidateView,
)
    requires
        resolution(owners, groups, observed, c).1 != EvidenceTier::Exact,
        resolution(owners, groups, observed, c).1 != EvidenceTier::NameMatch,
        exists|i: int| 0 <= i < observed.len() && (#[trigger] observed[i]).1 == c.path,
    ensures
        resolution(owners, groups, observed, c).1 == EvidenceTier::Observed,
        forall|key: Seq<char>| #[trigger]
            hits_hold(resolution(owners, groups, observed, c).0, key) <==> observed.contains(
                (key, c.path),
            ),
{
    let pick = open_hit(c);
    let hits = observed.filter_map(pick);
    let n = choose|i: int| 0 <= i < observed.len() && (#[trigger] observed[i]).1 == c.path;
    let m = lemma_picked(observed, pick, n);
    assert forall|key: Seq<char>| #[trigger]
        hits_hold(resolution(owners, groups, observed, c).0, key) <==> observed.contains(
            (key, c.path),
        ) by {
        if hits_hold(hits, key) {
            let j = choose|j: int| 0 <= j < hits.len() && (#[trigger] hits[j]).0 == key;
            let i = lemma_picked_from(observed, pick, j);
            assert(observed[i] == (key, c.path));
        }
        if observed.contains((key, c.path)) {
            let i = choose|i: int| 0 <= i < observed.len() && observed[i] == (key, c.path);
            let j = lemma_picked(observed, pick, i);
            assert(hits[j].0 == key);
        }
    }
}

/// Only what is open is observed.
pub proof fn law_observed_is_open(
    owners: OwnersView,
    groups: Groups,
    observed: Seq<(Seq<char>, Seq<Seq<char>>)>,
    c: CandidateView,
)
    requires
        resolution(owners, groups, observed, c).1 == EvidenceTier::Observed,
    ensures
        exists|i: int| 0 <= i < observed.len() && (#[trigger] observed[i]).1 == c.path,
{
    let i = lemma_picked_from(observed, open_hit(c), 0);
    assert(observed[i].1 == c.path);
}

proof fn lemma_row_in_table(owners: OwnersView, c: CandidateView, rows: Seq<CuratedView>, n: int, k: int) -> (j: int)
    requires
        0 <= n < rows.len(),
        0 <= k < row_hits(owners, c, rows[n]).len(),
    ensures
        0 <= j < table_hits(owners, c, rows).len(),
        table_hits(owners, c, rows)[j] == row_hits(owners, c, rows[n])[k],
    decreases rows.len(),
{
    let front = rows.drop_last();
    if n == rows.len() - 1 {
        table_hits(owners, c, front).len() + k
    } else {
        assert(front[n] == rows[n]);
        lemma_row_in_table(owners, c, front, n, k)
    }
}

proof fn lemma_row_from_table(owners: OwnersView, c: CandidateView, rows: Seq<CuratedView>, j: int) -> (n: int)
    requires
        0 <= j < table_hits(owners, c, rows).len(),
    ensures
        0 <= n < rows.len(),
        row_hits(owners, c, rows[n]).contains(table_hits(owners, c, rows)[j]),
    decreases rows.len(),
{
    if rows.len() == 0 {
        assert(false);
        0
    } else {
        let front = rows.drop_last();
        let f = table_hits(owners, c, front);
        if j < f.len() {
            let n = lemma_row_from_table(owners, c, front, j);
            assert(front[n] == rows[n]);
            n
        } else {
            let l = row_hits(owners, c, rows.last());
            assert(l[j - f.len()] == table_hits(owners, c, rows)[j]);
            rows.len() - 1
        }
    }
}

/// Where no other evidence tells, the table does: a row under the candidate's name, or its vendor's,
/// gives it to the row's owner, if there is one, or to all apps whose bundle id starts like the row's.
pub proof fn law_the_table_decides_the_rest(
    owners: OwnersView,
    groups: Groups,
    observed: Seq<(Seq<char>, Seq<Seq<char>>)>,
    c: CandidateView,
    n: int,
)
    requires
        resolution(owners, groups, observed, c).1 == EvidenceTier::Curated,
        0 <= n < curated_table(owners.agent).len(),
        same_letters(
            curated_table(owners.agent)[n].name,
            if c.vendor is Some {
                c.vendor->0
            } else {
                c.name
            },
        ),
    ensures
        ({
            let hits = resolution(owners, groups, observed, c).0;
            match curated_table(owners.agent)[n].target {
                TargetView::Owner(key) => (exists|i: int|
                    0 <= i < owners.all().len() && (#[trigger] owners.all()[i]).key == key)
                    ==> hits_hold(hits, key),
                TargetView::VendorPrefix(p) => forall|i: int|
                    0 <= i < owners.apps.len() && p.is_prefix_of(
                        (#[trigger] owners.apps[i]).owner.key,
                    ) ==> hits_hold(hits, owners.apps[i].owner.key),
            }
        }),
{
    let rows = curated_table(owners.agent);
    let hits = resolution(owners, groups, observed, c).0;
    let row = rows[n];
    match row.target {
        TargetView::Owner(key) => {
            if exists|i: int| 0 <= i < owners.all().len() && (#[trigger] owners.all()[i]).key == key {
                lemma_is_owner(owners, key);
                let j = lemma_row_in_table(owners, c, rows, n, 0);
                assert(hits[j].0 == key);
            }
        },
        TargetView::VendorPrefix(p) => {
            let evidence = "`"@ + crate::attribution::apps::linkers::table_name(c) + "` — "@
                + row.reason;
            assert forall|i: int|
                0 <= i < owners.apps.len() && p.is_prefix_of(
                    (#[trigger] owners.apps[i]).owner.key,
                ) implies hits_hold(hits, owners.apps[i].owner.key) by {
                let key = owners.apps[i].owner.key;
                assert(key.take(p.len() as int) =~= p);
                assert(starts(key, p));
                let k = lemma_picked(owners.apps, vendor_hit(p, evidence), i);
                let j = lemma_row_in_table(owners, c, rows, n, k);
                assert(hits[j].0 == key);
            }
        },
    }
}

proof fn lemma_is_owner(owners: OwnersView, key: Seq<char>)
    requires
        exists|i: int| 0 <= i < owners.all().len() && (#[trigger] owners.all()[i]).key == key,
    ensures
        is_owner(owners, key),
{
    let all = owners.all();
    let i = choose|i: int| 0 <= i < all.len() && (#[trigger] all[i]).key == key;
    let a = owners.apps.len();
    let f = owners.formulae.len();
    let t = owners.tools.len();
    if i < a {
        assert(owners.apps[i].owner.key == key);
    } else if i < a + f {
        assert(owners.formulae[i - a].owner.key == key);
    } else if i < a + f + t {
        assert(owners.tools[i - a - f].owner.key == key);
    }
}

/// The table gives a candidate to nobody unless a row bears its name or its vendor's.
pub proof fn law_the_table_gives_by_name(
    owners: OwnersView,
    groups: Groups,
    observed: Seq<(Seq<char>, Seq<Seq<char>>)>,
    c: CandidateView,
)
    requires
        resolution(owners, groups, observed, c).1 == EvidenceTier::Curated,
        resolution(owners, groups, observed, c).0.len() > 0,
    ensures
        exists|n: int|
            0 <= n < curated_table(owners.agent).len() && same_letters(
                (#[trigger] curated_table(owners.agent)[n]).name,
                if c.vendor is Some {
                    c.vendor->0
                } else {
                    c.name
                },
            ),
{
    let rows = curated_table(owners.agent);
    let n = lemma_row_from_table(owners, c, rows, 0);
    assert(row_hits(owners, c, rows[n]).len() > 0);
    assert(same_letters(rows[n].name, crate::attribution::apps::linkers::table_name(c)));
}

proof fn lemma_owned_claim(
    owners: OwnersView,
    groups: Groups,
    observed: Seq<(Seq<char>, Seq<Seq<char>>)>,
    cs: Seq<CandidateView>,
    i: int,
    h: int,
) -> (j: int)
    requires
        0 <= i < cs.len(),
        0 <= h < resolution(owners, groups, observed, cs[i]).0.len(),
    ensures
        ({
            let r = owned_claims(owners, groups, observed, cs);
            let res = resolution(owners, groups, observed, cs[i]);
            0 <= j < r.len() && r[j] == hit_claims(cs[i], res.0, res.1)[h]
        }),
    decreases cs.len(),
{
    let front = cs.drop_last();
    if i == cs.len() - 1 {
        owned_claims(owners, groups, observed, front).len() + h
    } else {
        assert(front[i] == cs[i]);
        lemma_owned_claim(owners, groups, observed, front, i, h)
    }
}

/// Each owner that a candidate is given to claims it, with the evidence and as surely as that tells.
pub proof fn law_owners_claim_their_candidates(
    home: Seq<Seq<char>>,
    owners: OwnersView,
    groups: Groups,
    observed: Seq<(Seq<char>, Seq<Seq<char>>)>,
    cs: Seq<CandidateView>,
    i: int,
    h: int,
)
    requires
        0 <= i < cs.len(),
        0 <= h < resolution(owners, groups, observed, cs[i]).0.len(),
    ensures
        ({
            let r = linked(home, owners, groups, observed, cs);
            let res = resolution(owners, groups, observed, cs[i]);
            exists|j: int|
                0 <= j < r.len() && (#[trigger] r[j]).path == cs[i].path && r[j].owner == res.0[h].0
                    && r[j].evidence == res.0[h].1 && r[j].tier == res.1 && r[j].kind
                    == cs[i].parent_kind && r[j].label == cs[i].name && !r[j].baseline
                    && !r[j].virtual_bytes && !r[j].clone_of_store && !r[j].stale
                    && r[j].raw_bytes_override is None
        }),
{
    let j = lemma_owned_claim(owners, groups, observed, cs, i, h);
    let r = linked(home, owners, groups, observed, cs);
    assert(r[j] == owned_claims(owners, groups, observed, cs)[j]);
}

proof fn lemma_orphan_claim(
    owners: OwnersView,
    groups: Groups,
    observed: Seq<(Seq<char>, Seq<Seq<char>>)>,
    all: Seq<CandidateView>,
    cs: Seq<CandidateView>,
    i: int,
) -> (j: int)
    requires
        0 <= i < cs.len(),
        resolution(owners, groups, observed, cs[i]).0.len() == 0,
        !in_claimed(owners, groups, observed, all, cs[i].path),
    ensures
        ({
            let r = orphan_claims(owners, groups, observed, all, cs);
            0 <= j < r.len() && r[j] == orphan_claim(cs[i])
        }),
    decreases cs.len(),
{
    let front = cs.drop_last();
    if i == cs.len() - 1 {
        orphan_claims(owners, groups, observed, all, front).len() as int
    } else {
        assert(front[i] == cs[i]);
        lemma_orphan_claim(owners, groups, observed, all, front, i)
    }
}

/// A candidate that nobody owns, and that does not lie directly in one that somebody owns, is claimed
/// by nobody.
pub proof fn law_what_nobody_owns_is_listed(
    home: Seq<Seq<char>>,
    owners: OwnersView,
    groups: Groups,
    observed: Seq<(Seq<char>, Seq<Seq<char>>)>,
    cs: Seq<CandidateView>,
    i: int,
)
    requires
        0 <= i < cs.len(),
        resolution(owners, groups, observed, cs[i]).0.len() == 0,
        forall|n: int|
            0 <= n < cs.len() && parent(cs[i].path) == Some((#[trigger] cs[n]).path) ==> resolution(
                owners,
                groups,
                observed,
                cs[n],
            ).0.len() == 0,
    ensures
        ({
            let r = linked(home, owners, groups, observed, cs);
            exists|j: int|
                0 <= j < r.len() && (#[trigger] r[j]).path == cs[i].path && r[j].owner
                    == "unattributed"@ && r[j].kind == cs[i].parent_kind && r[j].label == cs[i].name
        }),
{
    assert(!in_claimed(owners, groups, observed, cs, cs[i].path)) by {
        if in_claimed(owners, groups, observed, cs, cs[i].path) {
            let n = choose|n: int|
                0 <= n < cs.len() && (#[trigger] cs[n]).path == parent(cs[i].path)->0 && is_claimed(
                    owners,
                    groups,
                    observed,
                    cs[n],
                );
            assert(parent(cs[i].path) == Some(cs[n].path));
        }
    }
    let k = lemma_orphan_claim(owners, groups, observed, cs, cs, i);
    let r = linked(home, owners, groups, observed, cs);
    let o = owned_claims(owners, groups, observed, cs);
    assert(r[o.len() + k] == orphan_claims(owners, groups, observed, cs, cs)[k]);
}

/// Every app claims its bundle, and every formula its directory in the Cellar.
pub proof fn law_owners_claim_what_they_are(
    home: Seq<Seq<char>>,
    owners: OwnersView,
    groups: Groups,
    observed: Seq<(Seq<char>, Seq<Seq<char>>)>,
    cs: Seq<CandidateView>,
    i: int,
)
    ensures
        ({
            let r = linked(home, owners, groups, observed, cs);
            &&& 0 <= i < owners.apps.len() && owners.apps[i].owner.path is Some ==> exists|j: int|
                0 <= j < r.len() && (#[trigger] r[j]).path == owners.apps[i].owner.path->0
                    && r[j].owner == owners.apps[i].owner.key && r[j].kind == EntryKind::AppBundle
                    && r[j].tier == EvidenceTier::Exact
            &&& 0 <= i < owners.formulae.len() && owners.formulae[i].owner.path is Some
                ==> exists|j: int|
                0 <= j < r.len() && (#[trigger] r[j]).path == owners.formulae[i].owner.path->0
                    && r[j].owner == owners.formulae[i].owner.key && r[j].kind
                    == EntryKind::AppBundle && r[j].tier == EvidenceTier::Exact
        }),
{
    let r = linked(home, owners, groups, observed, cs);
    let o = owned_claims(owners, groups, observed, cs);
    let n = orphan_claims(owners, groups, observed, cs, cs);
    let own = own_claims(home, owners);
    let base = o.len() + n.len();
    assert forall|k: int| 0 <= k < own.len() implies r[base + k] == #[trigger] own[k] by {}
    if 0 <= i < owners.apps.len() && owners.apps[i].owner.path is Some {
        let k = lemma_picked(owners.apps, bundle_claim(), i);
        assert(own[k] == owners.apps.filter_map(bundle_claim())[k]);
        assert(r[base + k] == own[k]);
    }
    if 0 <= i < owners.formulae.len() && owners.formulae[i].owner.path is Some {
        let k = lemma_picked(owners.formulae, cellar_claim(), i);
        let m = owners.apps.filter_map(bundle_claim()).len();
        assert(own[m + k] == owners.formulae.filter_map(cellar_claim())[k]);
        assert(r[base + (m + k)] == own[m + k]);
    }
}

proof fn lemma_sharing(all: Seq<FormulaView>, fs: Seq<FormulaView>, i: int, k: int) -> (j: int)
    requires
        0 <= i < fs.len(),
        0 <= k < fs[i].dependents.filter_map(dependent_claim(all, fs[i])).len(),
    ensures
        0 <= j < sharing_claims(all, fs).len(),
        sharing_claims(all, fs)[j] == fs[i].dependents.filter_map(dependent_claim(all, fs[i]))[k],
    decreases fs.len(),
{
    let front = fs.drop_last();
    if i == fs.len() - 1 {
        sharing_claims(all, front).len() + k
    } else {
        assert(front[i] == fs[i]);
        lemma_sharing(all, front, i, k)
    }
}

/// A formula that another depends on is shared with it: the dependent claims its directory too.
pub proof fn law_dependents_share_a_formula(
    home: Seq<Seq<char>>,
    owners: OwnersView,
    groups: Groups,
    observed: Seq<(Seq<char>, Seq<Seq<char>>)>,
    cs: Seq<CandidateView>,
    i: int,
    d: int,
    n: int,
)
    requires
        0 <= i < owners.formulae.len(),
        owners.formulae[i].owner.path is Some,
        0 <= d < owners.formulae[i].dependents.len(),
        0 <= n < owners.formulae.len(),
        owners.formulae[n].owner.name == owners.formulae[i].dependents[d],
        forall|m: int|
            0 <= m < n ==> (#[trigger] owners.formulae[m]).owner.name
                != owners.formulae[i].dependents[d],
    ensures
        ({
            let r = linked(home, owners, groups, observed, cs);
            exists|j: int|
                0 <= j < r.len() && (#[trigger] r[j]).path == owners.formulae[i].owner.path->0
                    && r[j].owner == owners.formulae[n].owner.key && r[j].kind
                    == EntryKind::AppBundle && r[j].tier == EvidenceTier::Exact
        }),
{
    let all = owners.formulae;
    let f = all[i];
    let name = f.dependents[d];
    lemma_formula_named(all, name, n);
    let pick = dependent_claim(all, f);
    let k = lemma_picked(f.dependents, pick, d);
    let j = lemma_sharing(all, all, i, k);
    let r = linked(home, owners, groups, observed, cs);
    let s = sharing_claims(all, all);
    assert(r[r.len() - s.len() + j] == s[j]);
}

proof fn lemma_formula_named(fs: Seq<FormulaView>, name: Seq<char>, n: int)
    requires
        0 <= n < fs.len(),
        fs[n].owner.name == name,
        forall|m: int| 0 <= m < n ==> (#[trigger] fs[m]).owner.name != name,
    ensures
        formula_named(fs, name) == Some(fs[n]),
    decreases fs.len(),
{
    if n > 0 {
        assert(fs[0].owner.name != name);
        let t = fs.skip(1);
        assert(t[n - 1] == fs[n]);
        assert forall|m: int| 0 <= m < n - 1 implies (#[trigger] t[m]).owner.name != name by {
            assert(t[m] == fs[m + 1]);
        }
        lemma_formula_named(t, name, n - 1);
    }
}

} // verus!
