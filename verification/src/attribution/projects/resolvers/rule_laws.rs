//! What holds of the rules that lead from a project's files to what it uses elsewhere.

use vstd::prelude::*;

use crate::attribution::model::{ClaimView, EnvView};
use crate::attribution::paths::node_in;
use crate::attribution::projects::{artifact_dir, ProjectView};
use crate::attribution::projects::discovery_laws::{
    law_a_name_is_one_step, output_names, single_name,
};
use crate::disk::{DiskView, NodeKind, Stat};
use crate::fspath::{child, path_lt, path_text};
use crate::scan::{DirView, FindingId};
use crate::seqs::{flat, lemma_from_flat, lemma_in_flat, lemma_picked, lemma_picked_from};
use crate::text::{has_char, split, starts};
use crate::text_laws::{free_of, law_first_piece, lemma_first_place, lemma_no_place};

use super::apply::{
    any_form, dirs_manifests, file_claims, found_manifests, in_order, key_tokens, keys_claims,
    manifest_entry, manifest_keys, manifests_in, match_entry, matched, matches_in, path_place,
    row_claims, searched, target_claims, targets, template_paths, tree_manifests,
};
use super::derive::existing;
use super::parsers::KeyView;
use super::rules::{
    FindView, LookupView, Parse, Select, TargetView, TriggerView, CLONE_OF_STORE, NONE,
};
use super::templates::{
    choices, entry_matching, filled, glob_step, glob_steps, globbed, matches_glob, matching_in,
    named_in, token_value,
};

verus! {

/// Whether a text holds nothing that a template gives a meaning to.
pub open spec fn literal(s: Seq<char>) -> bool {
    free_of(s, '{') && free_of(s, '*')
}

proof fn lemma_filled_plain(a: Seq<char>, rest: Seq<char>, tokens: Seq<(Seq<char>, Seq<char>)>)
    requires
        free_of(a, '{'),
    ensures
        filled(a + rest, tokens) == a + filled(rest, tokens),
    decreases a.len(),
{
    if a.len() == 0 {
        assert(a + rest =~= rest);
        assert(a + filled(rest, tokens) =~= filled(rest, tokens));
    } else {
        let t = a.skip(1);
        assert forall|i: int| 0 <= i < t.len() implies #[trigger] t[i] != '{' by {
            assert(t[i] == a[i + 1]);
        }
        lemma_filled_plain(t, rest, tokens);
        assert((a + rest)[0] == a[0]);
        assert(a[0] != '{');
        assert((a + rest).skip(1) =~= t + rest);
        assert(seq![a[0]] + (t + filled(rest, tokens)) =~= a + filled(rest, tokens));
    }
}

/// A template is filled from front to back: text stays as it is, and a token in braces gives way to
/// its value, the first that the tokens give it.
pub proof fn law_templates_are_filled(
    text: Seq<char>,
    token: Seq<char>,
    rest: Seq<char>,
    tokens: Seq<(Seq<char>, Seq<char>)>,
    n: int,
)
    requires
        free_of(text, '{'),
        free_of(token, '}'),
        0 <= n < tokens.len(),
        tokens[n].0 == token,
        forall|m: int| 0 <= m < n ==> (#[trigger] tokens[m]).0 != token,
    ensures
        filled(text + (seq!['{'] + token + seq!['}'] + rest), tokens) == text + tokens[n].1 + filled(
            rest,
            tokens,
        ),
        filled(text, tokens) == text,
{
    let t = seq!['{'] + token + seq!['}'] + rest;
    lemma_filled_plain(text, t, tokens);
    lemma_filled_plain(text, seq![], tokens);
    assert(text + seq![] =~= text);
    assert(filled(seq![], tokens) =~= seq![]);
    assert(t[0] == '{');
    assert(t.skip(1) =~= token + seq!['}'] + rest);
    lemma_first_place(token, rest, '}');
    lemma_token(tokens, token, n);
    assert(text + (tokens[n].1 + filled(rest, tokens)) =~= text + tokens[n].1 + filled(
        rest,
        tokens,
    ));
}

proof fn lemma_token(tokens: Seq<(Seq<char>, Seq<char>)>, token: Seq<char>, n: int)
    requires
        0 <= n < tokens.len(),
        tokens[n].0 == token,
        forall|m: int| 0 <= m < n ==> (#[trigger] tokens[m]).0 != token,
    ensures
        token_value(tokens, token) == Some(tokens[n].1),
    decreases tokens.len(),
{
    if n > 0 {
        assert(tokens[0].0 != token);
        let t = tokens.skip(1);
        assert(t[n - 1] == tokens[n]);
        assert forall|m: int| 0 <= m < n - 1 implies (#[trigger] t[m]).0 != token by {
            assert(t[m] == tokens[m + 1]);
        }
        lemma_token(t, token, n - 1);
    }
}

/// A pattern without a star stands for itself alone; one with a star for every name that starts and
/// ends like it, without the two overlapping.
pub proof fn law_patterns(a: Seq<char>, b: Seq<char>, name: Seq<char>)
    requires
        free_of(a, '*'),
        free_of(b, '*'),
    ensures
        matches_glob(a, name) <==> name == a,
        matches_glob(a + seq!['*'] + b, name) <==> exists|m: Seq<char>| name == #[trigger] (a + m)
            + b,
{
    law_first_piece(a, b, '*');
    law_first_piece(b, seq![], '*');
    let pieces = split(a + seq!['*'] + b, '*');
    assert(pieces =~= seq![a, b]);
    assert(pieces.skip(1) =~= seq![b]);
    let rest = name.skip(a.len() as int);
    if matches_glob(a + seq!['*'] + b, name) {
        let m = rest.take(rest.len() - b.len());
        assert(rest =~= m + rest.skip(rest.len() - b.len()));
        assert(name =~= name.take(a.len() as int) + rest);
        assert(name =~= (a + m) + b);
    }
    if exists|m: Seq<char>| name == #[trigger] (a + m) + b {
        let m = choose|m: Seq<char>| name == #[trigger] (a + m) + b;
        assert(name.take(a.len() as int) =~= a);
        assert(rest =~= m + b);
        assert(rest.skip(rest.len() - b.len()) =~= b);
    }
}

proof fn lemma_step_plain(disk: DiskView, paths: Seq<Seq<Seq<char>>>, c: Seq<char>, i: int) -> (j: int)
    requires
        literal(c),
        c.len() > 0,
        0 <= i < paths.len(),
    ensures
        0 <= j < glob_step(disk, paths, c).len(),
        glob_step(disk, paths, c)[j] == child(paths[i], c),
{
    lemma_no_place(c, '{');
    lemma_no_place(c, '*');
    assert(choices(c) is None);
    assert(!has_char(c, '*'));
    let f = named_in(seq![c]);
    assert(f(paths[i])[0] == child(paths[i], c));
    lemma_in_flat(paths, f, i, 0)
}

proof fn lemma_step_star(
    disk: DiskView,
    paths: Seq<Seq<Seq<char>>>,
    i: int,
    e: int,
) -> (j: int)
    requires
        0 <= i < paths.len(),
        disk.list(paths[i]) is Some,
        0 <= e < disk.list(paths[i])->0.len(),
    ensures
        0 <= j < glob_step(disk, paths, seq!['*']).len(),
        glob_step(disk, paths, seq!['*'])[j] == child(paths[i], disk.list(paths[i])->0[e].0),
{
    let c = seq!['*'];
    assert(free_of(c, '{'));
    lemma_no_place(c, '{');
    lemma_first_place(seq![], seq![], '*');
    assert(seq![] + seq!['*'] + seq![] =~= c);
    assert(has_char(c, '*'));
    let l = disk.list(paths[i])->0;
    let name = l[e].0;
    law_patterns(seq![], seq![], name);
    assert(name =~= (Seq::<char>::empty() + name) + Seq::<char>::empty());
    let pick = entry_matching(c, paths[i]);
    assert(pick(l[e]) == Some(child(paths[i], name)));
    let k = lemma_picked(l, pick, e);
    let f = matching_in(disk, c);
    assert(f(paths[i]) == l.filter_map(pick));
    lemma_in_flat(paths, f, i, k)
}

spec fn literal_names(names: Seq<Seq<char>>) -> bool {
    forall|i: int| 0 <= i < names.len() ==> literal(#[trigger] names[i]) && single_name(names[i])
}

proof fn lemma_steps_plain(
    disk: DiskView,
    home: Seq<Seq<char>>,
    names: Seq<Seq<char>>,
) -> (j: int)
    requires
        literal_names(names),
    ensures
        0 <= j < glob_steps(disk, seq![home], names).len(),
        glob_steps(disk, seq![home], names)[j] == home + names,
    decreases names.len(),
{
    if names.len() == 0 {
        assert(home + names =~= home);
        0
    } else {
        let front = names.drop_last();
        assert forall|i: int| 0 <= i < front.len() implies literal(#[trigger] front[i])
            && single_name(front[i]) by {
            assert(front[i] == names[i]);
        }
        let i = lemma_steps_plain(disk, home, front);
        let z = names.last();
        assert(literal(names[names.len() - 1]));
        let j = lemma_step_plain(disk, glob_steps(disk, seq![home], front), z, i);
        law_a_name_is_one_step(home + front, z);
        assert((home + front).push(z) =~= home + names);
        j
    }
}

/// Names with slashes between them.
pub open spec fn spelled(names: Seq<Seq<char>>) -> Seq<char>
    decreases names.len(),
{
    if names.len() == 0 {
        seq![]
    } else if names.len() == 1 {
        names[0]
    } else {
        names[0] + seq!['/'] + spelled(names.skip(1))
    }
}

proof fn lemma_spelled_split(names: Seq<Seq<char>>)
    requires
        names.len() > 0,
        forall|i: int| 0 <= i < names.len() ==> free_of(#[trigger] names[i], '/'),
    ensures
        split(spelled(names), '/') == names,
    decreases names.len(),
{
    assert(free_of(names[0], '/'));
    if names.len() == 1 {
        law_first_piece(names[0], seq![], '/');
        assert(seq![names[0]] =~= names);
    } else {
        let t = names.skip(1);
        assert forall|i: int| 0 <= i < t.len() implies free_of(#[trigger] t[i], '/') by {
            assert(t[i] == names[i + 1]);
        }
        lemma_spelled_split(t);
        law_first_piece(names[0], spelled(t), '/');
        assert(seq![names[0]] + t =~= names);
    }
}

/// A template of single names from the home directory on leads to the path of those names, and to
/// nothing else.
pub proof fn law_plain_templates_lead_home(
    disk: DiskView,
    home: Seq<Seq<char>>,
    names: Seq<Seq<char>>,
)
    requires
        names.len() > 0,
        forall|i: int|
            0 <= i < names.len() ==> literal(#[trigger] names[i]) && single_name(names[i]),
    ensures
        globbed(disk, "~/"@ + spelled(names), home).contains(home + names),
{
    reveal_strlit("~/");
    let t = "~/"@ + spelled(names);
    assert(t.take(2) =~= "~/"@);
    assert(t.skip(2) =~= spelled(names));
    assert forall|i: int| 0 <= i < names.len() implies free_of(#[trigger] names[i], '/') by {
        assert(single_name(names[i]));
    }
    lemma_spelled_split(names);
    let j = lemma_steps_plain(disk, home, names);
    assert(globbed(disk, t, home)[j] == home + names);
}

/// A template with a star for one directory leads to the path through each entry of the directory
/// before it.
pub proof fn law_a_star_leads_through_every_entry(
    disk: DiskView,
    home: Seq<Seq<char>>,
    before: Seq<Seq<char>>,
    last: Seq<char>,
    e: int,
)
    requires
        forall|i: int|
            0 <= i < before.len() ==> literal(#[trigger] before[i]) && single_name(before[i]),
        literal(last),
        single_name(last),
        disk.list(home + before) is Some,
        0 <= e < disk.list(home + before)->0.len(),
        single_name(disk.list(home + before)->0[e].0),
    ensures
        globbed(
            disk,
            "~/"@ + spelled(before.push(seq!['*']).push(last)),
            home,
        ).contains((home + before).push(disk.list(home + before)->0[e].0).push(last)),
{
    reveal_strlit("~/");
    let star = seq!['*'];
    let names = before.push(star).push(last);
    let t = "~/"@ + spelled(names);
    assert(t.take(2) =~= "~/"@);
    assert(t.skip(2) =~= spelled(names));
    assert forall|i: int| 0 <= i < names.len() implies free_of(#[trigger] names[i], '/') by {
        if i < before.len() {
            assert(names[i] == before[i]);
            assert(single_name(before[i]));
        }
    }
    lemma_spelled_split(names);
    let at = home + before;
    let idx = disk.list(at)->0[e].0;
    let j0 = lemma_steps_plain(disk, home, before);
    let s0 = glob_steps(disk, seq![home], before);
    let j1 = lemma_step_star(disk, s0, j0, e);
    assert(before.push(star).drop_last() =~= before);
    let s1 = glob_steps(disk, seq![home], before.push(star));
    assert(s1[j1] == child(at, idx));
    law_a_name_is_one_step(at, idx);
    let j2 = lemma_step_plain(disk, s1, last, j1);
    assert(names.drop_last() =~= before.push(star));
    law_a_name_is_one_step(at.push(idx), last);
    assert(globbed(disk, t, home)[j2] == at.push(idx).push(last));
}

proof fn lemma_path_place(s: Seq<Seq<Seq<char>>>, p: Seq<Seq<char>>)
    ensures
        0 <= path_place(s, p) <= s.len(),
    decreases s.len(),
{
    if s.len() > 0 && path_lt(p, s.last()) {
        lemma_path_place(s.drop_last(), p);
    }
}

proof fn lemma_in_order(s: Seq<Seq<Seq<char>>>, i: int) -> (j: int)
    requires
        0 <= i < s.len(),
    ensures
        0 <= j < in_order(s).len(),
        in_order(s)[j] == s[i],
    decreases s.len(),
{
    let front = in_order(s.drop_last());
    let n = path_place(front, s.last());
    lemma_path_place(front, s.last());
    assert(in_order(s) == front.insert(n, s.last()));
    if i == s.len() - 1 {
        n
    } else {
        assert(s.drop_last()[i] == s[i]);
        let k = lemma_in_order(s.drop_last(), i);
        if k < n {
            assert(in_order(s)[k] == s[i]);
            k
        } else {
            assert(in_order(s)[k + 1] == s[i]);
            k + 1
        }
    }
}

/// The path that a chain of directories leads to, the first of which is at `at`.
pub open spec fn way_down(at: Seq<Seq<char>>, chain: Seq<DirView>) -> Seq<Seq<char>>
    decreases chain.len(),
{
    if chain.len() <= 1 {
        at
    } else {
        way_down(child(at, chain[1].name), chain.skip(1))
    }
}

/// Whether each directory of a chain lies in the one before and is one that is searched: neither hidden
/// nor of build output.
pub open spec fn searched_chain(chain: Seq<DirView>) -> bool {
    chain.len() > 0 && forall|i: int|
        0 < i < chain.len() ==> chain[i - 1].children.contains(#[trigger] chain[i]) && !(
        chain[i].name.len() > 0 && chain[i].name[0] == '.') && !output_names().contains(
            chain[i].name,
        )
}

proof fn lemma_searched(name: Seq<char>)
    requires
        !(name.len() > 0 && name[0] == '.'),
        !output_names().contains(name),
    ensures
        searched(name),
{
    reveal_strlit(".");
    if starts(name, "."@) {
        assert(name.take(1)[0] == name[0]);
    }
    let x = output_names();
    if artifact_dir(name) {
        assert(x[0] == "node_modules"@ && x[1] == "target"@ && x[2] == ".venv"@ && x[3] == "venv"@);
        assert(x[4] == "build"@ && x[5] == "dist"@ && x[6] == "Pods"@ && x[7] == "__pycache__"@);
    }
}

proof fn lemma_dirs_manifests(
    disk: DiskView,
    names: Seq<&'static str>,
    at: Seq<Seq<char>>,
    dirs: Seq<DirView>,
    deeper: nat,
    d: int,
    k: int,
) -> (j: int)
    requires
        deeper > 0,
        0 <= d < dirs.len(),
        searched(dirs[d].name),
        ({
            let t = tree_manifests(
                disk,
                names,
                child(at, dirs[d].name),
                dirs[d],
                (deeper - 1) as nat,
            );
            0 <= k < t.len()
        }),
    ensures
        0 <= j < dirs_manifests(disk, names, at, dirs, deeper).len(),
        dirs_manifests(disk, names, at, dirs, deeper)[j] == tree_manifests(
            disk,
            names,
            child(at, dirs[d].name),
            dirs[d],
            (deeper - 1) as nat,
        )[k],
    decreases dirs.len(),
{
    let front = dirs.drop_last();
    let f = dirs_manifests(disk, names, at, front, deeper);
    if d == dirs.len() - 1 {
        f.len() + k
    } else {
        assert(front[d] == dirs[d]);
        lemma_dirs_manifests(disk, names, at, front, deeper, d, k)
    }
}

proof fn lemma_tree_manifest(
    disk: DiskView,
    names: Seq<&'static str>,
    at: Seq<Seq<char>>,
    chain: Seq<DirView>,
    deeper: nat,
    e: int,
) -> (j: int)
    requires
        searched_chain(chain),
        chain.len() <= deeper + 1,
        disk.list(way_down(at, chain)) is Some,
        0 <= e < disk.list(way_down(at, chain))->0.len(),
        disk.list(way_down(at, chain))->0[e].1 != NodeKind::Dir,
        any_form(names, disk.list(way_down(at, chain))->0[e].0),
    ensures
        0 <= j < tree_manifests(disk, names, at, chain[0], deeper).len(),
        tree_manifests(disk, names, at, chain[0], deeper)[j] == child(
            way_down(at, chain),
            disk.list(way_down(at, chain))->0[e].0,
        ),
    decreases chain.len(),
{
    let here = manifests_in(disk, names, at);
    if chain.len() == 1 {
        let l = disk.list(at)->0;
        let k = lemma_picked(l, manifest_entry(names, at), e);
        assert(here[k] == child(at, l[e].0));
        k
    } else {
        let d = chain[1];
        let t = chain.skip(1);
        assert(chain[0].children.contains(chain[1]));
        let n = choose|n: int| 0 <= n < chain[0].children.len() && chain[0].children[n] == d;
        lemma_searched(d.name);
        assert(searched_chain(t)) by {
            assert forall|i: int| 0 < i < t.len() implies t[i - 1].children.contains(
                #[trigger] t[i],
            ) && !(t[i].name.len() > 0 && t[i].name[0] == '.') && !output_names().contains(
                t[i].name,
            ) by {
                assert(t[i] == chain[i + 1] && t[i - 1] == chain[i]);
                assert(chain[i + 1 - 1].children.contains(chain[i + 1]));
            }
        }
        assert(t[0] == d);
        let k = lemma_tree_manifest(
            disk,
            names,
            child(at, d.name),
            t,
            (deeper - 1) as nat,
            e,
        );
        let j = lemma_dirs_manifests(disk, names, at, chain[0].children, deeper, n, k);
        here.len() + j
    }
}

/// A manifest is found wherever it lies in a project, down to the depth that is searched, but for
/// hidden directories and those of build output.
pub proof fn law_manifests_are_found(
    env: EnvView,
    disk: DiskView,
    root: Seq<Seq<char>>,
    names: Seq<&'static str>,
    depth: nat,
    chain: Seq<DirView>,
    e: int,
)
    requires
        searched_chain(chain),
        node_in(env.trees, root) == Some(chain[0]),
        chain.len() <= depth + 1,
        disk.list(way_down(root, chain)) is Some,
        0 <= e < disk.list(way_down(root, chain))->0.len(),
        disk.list(way_down(root, chain))->0[e].1 != NodeKind::Dir,
        exists|n: int|
            0 <= n < names.len() && matches_glob(
                (#[trigger] names[n])@,
                disk.list(way_down(root, chain))->0[e].0,
            ),
    ensures
        found_manifests(env, disk, root, names, depth).contains(
            child(way_down(root, chain), disk.list(way_down(root, chain))->0[e].0),
        ),
{
    let i = lemma_tree_manifest(disk, names, root, chain, depth, e);
    let j = lemma_in_order(tree_manifests(disk, names, root, chain[0], depth), i);
    assert(found_manifests(env, disk, root, names, depth)[j] == child(
        way_down(root, chain),
        disk.list(way_down(root, chain))->0[e].0,
    ));
}

/// Whether a claim is made by a rule: for the project, of the rule's kind, ecosystem and sureness.
pub open spec fn by_rule(c: ClaimView, row: LookupView, p: ProjectView, at: Seq<Seq<char>>) -> bool {
    &&& c.path == at
    &&& c.owner == path_text(p.root)
    &&& c.kind == row.kind
    &&& c.tier == row.tier
    &&& c.ecosystem == (match row.ecosystem {
        Some(e) => Some(e@),
        None => None,
    })
    &&& c.clone_of_store <==> row.flags & CLONE_OF_STORE != 0
    &&& !c.baseline && !c.virtual_bytes && !c.stale && c.raw_bytes_override is None
}

/// What a rule leads to from a key is claimed by the project, by that rule, and nothing else is.
pub proof fn law_targets_of_a_rule_are_claimed(
    row: LookupView,
    key: KeyView,
    file: Seq<char>,
    rel: Seq<char>,
    made_by: Option<Seq<Seq<char>>>,
    p: ProjectView,
    env: EnvView,
    disk: DiskView,
)
    ensures
        ({
            let t = targets(row, key, made_by, p, env, disk);
            let r = target_claims(row, key, file, rel, made_by, p, env, disk);
            &&& r.len() == t.len()
            &&& forall|i: int|
                0 <= i < r.len() ==> by_rule(#[trigger] r[i], row, p, t[i].0) && r[i].finding
                    == t[i].1
        }),
{
}

/// A rule over templates leads to the paths that they stand for and that are there.
pub proof fn law_templates_lead_to_what_is_there(
    row: LookupView,
    templates: Seq<&'static str>,
    key: KeyView,
    made_by: Option<Seq<Seq<char>>>,
    p: ProjectView,
    env: EnvView,
    disk: DiskView,
    at: Seq<Seq<char>>,
)
    requires
        row.target == TargetView::Path(templates),
        templates.len() > 0,
    ensures
        targets(row, key, made_by, p, env, disk).contains((at, None)) <==> disk.stat(at)
            != Stat::Absent && exists|n: int|
            0 <= n < templates.len() && globbed(
                disk,
                filled((#[trigger] templates[n])@, key_tokens(key)),
                env.home,
            ).contains(at),
{
    let f = template_paths(disk, env.home, key_tokens(key));
    let all = flat(templates, f);
    let pick = |q: Seq<Seq<char>>|
        if disk.present(q) {
            Some(q)
        } else {
            None
        };
    let there = existing(disk, all);
    assert(there == all.filter_map(pick));
    let t = targets(row, key, made_by, p, env, disk);
    if t.contains((at, None)) {
        let i = choose|i: int| 0 <= i < t.len() && t[i] == (at, None::<FindingId>);
        assert(there[i] == at);
        let k = lemma_picked_from(all, pick, i);
        let r = lemma_from_flat(templates, f, k);
        assert(globbed(disk, filled(templates[r.0]@, key_tokens(key)), env.home)[r.1] == at);
    }
    if disk.stat(at) != Stat::Absent && exists|n: int|
        0 <= n < templates.len() && globbed(
            disk,
            filled((#[trigger] templates[n])@, key_tokens(key)),
            env.home,
        ).contains(at) {
        let n = choose|n: int|
            0 <= n < templates.len() && globbed(
                disk,
                filled((#[trigger] templates[n])@, key_tokens(key)),
                env.home,
            ).contains(at);
        let g = globbed(disk, filled(templates[n]@, key_tokens(key)), env.home);
        let k = choose|k: int| 0 <= k < g.len() && g[k] == at;
        assert(f(templates[n]) == g);
        let j = lemma_in_flat(templates, f, n, k);
        let i = lemma_picked(all, pick, j);
        assert(there[i] == at);
        assert(t[i] == (at, None::<FindingId>));
    }
}

/// Each key of each manifest that a rule finds is followed.
pub proof fn law_every_key_of_every_manifest_is_followed(
    row: LookupView,
    names: Seq<&'static str>,
    depth: usize,
    cap: usize,
    parse: Parse,
    p: ProjectView,
    env: EnvView,
    disk: DiskView,
    file: Seq<Seq<char>>,
    text: Seq<char>,
    key: KeyView,
    at: Seq<Seq<char>>,
    finding: Option<FindingId>,
)
    requires
        row.trigger == (TriggerView::Manifest {
            find: FindView::Subtree { names, depth, cap },
            parse,
        }),
        found_manifests(env, disk, p.root, names, depth as nat).contains(file),
        disk.head(file, cap) == Some(text),
        manifest_keys(parse, text).contains(key),
        targets(row, key, None, p, env, disk).contains((at, finding)),
    ensures
        exists|j: int|
            0 <= j < row_claims(row, p, env, disk).len() && by_rule(
                #[trigger] row_claims(row, p, env, disk)[j],
                row,
                p,
                at,
            ) && row_claims(row, p, env, disk)[j].finding == finding,
{
    let files = found_manifests(env, disk, p.root, names, depth as nat);
    let f = file_claims(row, parse, cap, p, env, disk);
    let n = choose|n: int| 0 <= n < files.len() && files[n] == file;
    let keys = manifest_keys(parse, text);
    let m = choose|m: int| 0 <= m < keys.len() && keys[m] == key;
    let t = targets(row, key, None, p, env, disk);
    let i = choose|i: int| 0 <= i < t.len() && t[i] == (at, finding);
    let g = keys_claims(
        row,
        super::derive::end_name(file),
        super::apply::rel_dir(p.root, file),
        p,
        env,
        disk,
    );
    let j1 = lemma_in_flat(keys, g, m, i);
    assert(f(file) == flat(keys, g));
    let j2 = lemma_in_flat(files, f, n, j1);
    assert(row_claims(row, p, env, disk)[j2] == g(key)[i]);
}

/// Each key of the manifest in a project's root is followed.
pub proof fn law_every_key_of_the_roots_manifest_is_followed(
    row: LookupView,
    name: &'static str,
    cap: usize,
    parse: Parse,
    p: ProjectView,
    env: EnvView,
    disk: DiskView,
    text: Seq<char>,
    key: KeyView,
    at: Seq<Seq<char>>,
    finding: Option<FindingId>,
)
    requires
        row.trigger == (TriggerView::Manifest { find: FindView::Root(name, cap), parse }),
        disk.head(child(p.root, name@), cap) == Some(text),
        manifest_keys(parse, text).contains(key),
        targets(row, key, None, p, env, disk).contains((at, finding)),
    ensures
        exists|j: int|
            0 <= j < row_claims(row, p, env, disk).len() && by_rule(
                #[trigger] row_claims(row, p, env, disk)[j],
                row,
                p,
                at,
            ) && row_claims(row, p, env, disk)[j].finding == finding,
{
    let keys = manifest_keys(parse, text);
    let m = choose|m: int| 0 <= m < keys.len() && keys[m] == key;
    let t = targets(row, key, None, p, env, disk);
    let i = choose|i: int| 0 <= i < t.len() && t[i] == (at, finding);
    let g = keys_claims(row, name@, seq![], p, env, disk);
    let j1 = lemma_in_flat(keys, g, m, i);
    assert(row_claims(row, p, env, disk)[j1] == g(key)[i]);
}

/// A rule over a prefix leads, where all matches count, to each entry of its directories whose name
/// starts with the prefix.
pub proof fn law_prefixes_lead_to_every_match(
    disk: DiskView,
    home: Seq<Seq<char>>,
    dirs: Seq<&'static str>,
    prefix: Seq<char>,
    tokens: Seq<(Seq<char>, Seq<char>)>,
    pin: Seq<char>,
    n: int,
    dir: Seq<Seq<char>>,
    e: int,
)
    requires
        0 <= n < dirs.len(),
        globbed(disk, filled(dirs[n]@, tokens), home).contains(dir),
        disk.list(dir) is Some,
        0 <= e < disk.list(dir)->0.len(),
        filled(prefix, tokens).is_prefix_of(disk.list(dir)->0[e].0),
    ensures
        matched(disk, home, dirs, prefix, Select::All, tokens, NONE, pin).contains(
            child(dir, disk.list(dir)->0[e].0),
        ),
{
    let x = filled(prefix, tokens);
    let f = template_paths(disk, home, tokens);
    let g = globbed(disk, filled(dirs[n]@, tokens), home);
    let k = choose|k: int| 0 <= k < g.len() && g[k] == dir;
    assert(f(dirs[n]) == g);
    let i = lemma_in_flat(dirs, f, n, k);
    let all = flat(dirs, f);
    let l = disk.list(dir)->0;
    let name = l[e].0;
    assert(name.take(x.len() as int) =~= x);
    lemma_no_flags();
    let pick = match_entry(NONE, x, dir);
    assert(pick(l[e]) == Some((name, child(dir, name))));
    let m = lemma_picked(l, pick, e);
    let h = matches_in(disk, NONE, x);
    assert(h(dir) == l.filter_map(pick));
    let j = lemma_in_flat(all, h, i, m);
    let ms = flat(all, h);
    let r = matched(disk, home, dirs, prefix, Select::All, tokens, NONE, pin);
    assert(r[j] == ms[j].1);
}

proof fn lemma_no_flags()
    ensures
        NONE & super::rules::V_PREFIX == 0,
        NONE & super::rules::CASE_INSENSITIVE == 0,
        NONE & CLONE_OF_STORE == 0,
{
    let n = NONE;
    let a = super::rules::V_PREFIX;
    let b = super::rules::CASE_INSENSITIVE;
    let c = CLONE_OF_STORE;
    assert(0u8 & a == 0) by (bit_vector);
    assert(0u8 & b == 0) by (bit_vector);
    assert(0u8 & c == 0) by (bit_vector);
}

} // verus!
