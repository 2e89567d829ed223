//! What holds of the directories that are looked at for owners, and of the owners that are found.

use vstd::prelude::*;

use crate::attribution::apps::candidates::{
    candidates_in, depth1, depth1_and_2, depth2, dir_candidate, dirs_in, dotdir, file_candidates,
    files_in, CandidateView, FileHub,
};
use crate::attribution::apps::owners::{formula_in, owners_in};
use crate::attribution::model::{EntryKind, EnvView, OwnerKind};
use crate::attribution::paths::node_in;
use crate::disk::DiskView;
use crate::doc::text_field;
use crate::fspath::{child, path_of};
use crate::scan::{DirView, FindingKind, ScannerId, TreeView};
use crate::seqs::lemma_picked;
use crate::text_laws::free_of;

verus! {

/// The directories of a library whose own directories belong to apps, each with what they are.
pub open spec fn hubs() -> Seq<(Seq<char>, EntryKind)> {
    seq![
        ("Application Support"@, EntryKind::AppSupport),
        ("Caches"@, EntryKind::Cache),
        ("Containers"@, EntryKind::Container),
        ("Group Containers"@, EntryKind::GroupContainer),
        ("Logs"@, EntryKind::Logs),
        ("HTTPStorages"@, EntryKind::WebData),
        ("WebKit"@, EntryKind::WebData),
        ("Application Scripts"@, EntryKind::Other),
    ]
}

proof fn lemma_depth1(
    t: Seq<TreeView>,
    hub: Seq<Seq<char>>,
    kind: EntryKind,
    node: DirView,
    i: int,
)
    requires
        node_in(t, hub) == Some(node),
        0 <= i < node.children.len(),
    ensures
        depth1(t, hub, kind).len() == node.children.len(),
        depth1(t, hub, kind)[i] == dir_candidate(hub, kind, node.children[i].name),
        dirs_in(t, hub)[i] == node.children[i].name,
{
}

proof fn lemma_depth1_and_2(
    t: Seq<TreeView>,
    hub: Seq<Seq<char>>,
    kind: EntryKind,
    names: Seq<Seq<char>>,
    i: int,
    k: int,
) -> (r: (int, int))
    requires
        0 <= i < names.len(),
        k >= 0 ==> !names[i].contains('.') && k < depth2(t, hub, kind, names[i]).len(),
    ensures
        ({
            let all = depth1_and_2(t, hub, kind, names);
            &&& 0 <= r.0 < all.len()
            &&& all[r.0] == dir_candidate(hub, kind, names[i])
            &&& k >= 0 ==> 0 <= r.1 < all.len() && all[r.1] == depth2(t, hub, kind, names[i])[k]
        }),
    decreases names.len(),
{
    let front = names.drop_last();
    let f = depth1_and_2(t, hub, kind, front);
    let all = depth1_and_2(t, hub, kind, names);
    if i == names.len() - 1 {
        assert(all[f.len() as int] == dir_candidate(hub, kind, names[i]));
        if k >= 0 {
            assert(all[f.len() + 1 + k] == depth2(t, hub, kind, names[i])[k]);
        }
        (f.len() as int, f.len() + 1 + k)
    } else {
        assert(front[i] == names[i]);
        let r = lemma_depth1_and_2(t, hub, kind, front, i, k);
        assert(all[r.0] == f[r.0]);
        if k >= 0 {
            assert(all[r.1] == f[r.1]);
        }
        r
    }
}

/// The lists that make up the candidates, one behind the other.
spec fn parts(env: EnvView, disk: DiskView) -> Seq<Seq<CandidateView>> {
    let t = env.trees;
    let lib = child(env.home, "Library"@);
    let sys = path_of("/Library"@);
    let support = child(lib, "Application Support"@);
    let caches = child(lib, "Caches"@);
    seq![
        depth1_and_2(t, support, EntryKind::AppSupport, dirs_in(t, support)),
        depth1_and_2(t, caches, EntryKind::Cache, dirs_in(t, caches)),
        depth1(t, child(lib, "Containers"@), EntryKind::Container),
        depth1(t, child(lib, "Group Containers"@), EntryKind::GroupContainer),
        depth1(t, child(lib, "Logs"@), EntryKind::Logs),
        depth1(t, child(lib, "HTTPStorages"@), EntryKind::WebData),
        files_in(disk, child(lib, "HTTPStorages"@), FileHub::OnlyCookies),
        depth1(t, child(lib, "WebKit"@), EntryKind::WebData),
        files_in(disk, child(lib, "Saved Application State"@), FileHub::SavedState),
        files_in(disk, child(lib, "Cookies"@), FileHub::Cookies),
        depth1(t, child(lib, "Application Scripts"@), EntryKind::Other),
        files_in(disk, child(lib, "Preferences"@), FileHub::Plists),
        depth1(t, child(env.home, ".config"@), EntryKind::DotDir),
        depth1(t, child(env.home, ".cache"@), EntryKind::Cache),
        depth1(t, child(env.home, ".local/share"@), EntryKind::DotDir),
        depth1(t, child(env.home, ".local/state"@), EntryKind::DotDir),
        dirs_in(t, env.home).filter_map(dotdir(env.home)),
        depth1(t, child(sys, "Application Support"@), EntryKind::AppSupport),
        depth1(t, child(sys, "Caches"@), EntryKind::Cache),
        depth1(t, child(sys, "Logs"@), EntryKind::Logs),
        files_in(disk, child(sys, "Preferences"@), FileHub::Plists),
    ]
}

spec fn upto(ps: Seq<Seq<CandidateView>>, n: int) -> Seq<CandidateView>
    decreases n,
{
    if n <= 0 {
        seq![]
    } else {
        upto(ps, n - 1) + ps[n - 1]
    }
}

proof fn lemma_upto(ps: Seq<Seq<CandidateView>>, n: int, m: int, i: int) -> (j: int)
    requires
        0 <= m < n <= ps.len(),
        0 <= i < ps[m].len(),
    ensures
        0 <= j < upto(ps, n).len(),
        upto(ps, n)[j] == ps[m][i],
    decreases n,
{
    if m == n - 1 {
        upto(ps, n - 1).len() + i
    } else {
        lemma_upto(ps, n - 1, m, i)
    }
}

proof fn lemma_parts(env: EnvView, disk: DiskView, m: int, i: int)
    requires
        0 <= m < 21,
        0 <= i < parts(env, disk)[m].len(),
    ensures
        candidates_in(env, disk).contains(parts(env, disk)[m][i]),
{
    let ps = parts(env, disk);
    let j = lemma_upto(ps, 21, m, i);
    let all = candidates_in(env, disk);
    lemma_unroll(ps);
    assert(upto(ps, 21) =~= all.take(upto(ps, 21).len() as int)) by {
        let t = env.trees;
        let more = match env.brew_prefix {
            Some(p) => depth1(t, child(p, "var"@), EntryKind::Other) + depth1(
                t,
                child(p, "etc"@),
                EntryKind::Other,
            ) + depth1(t, child(p, "share"@), EntryKind::Other),
            None => seq![],
        };
        assert(all == upto(ps, 21) + more);
    }
    assert(all[j] == upto(ps, 21)[j]);
}

proof fn lemma_unroll(ps: Seq<Seq<CandidateView>>)
    requires
        ps.len() == 21,
    ensures
        upto(ps, 21) == ps[0] + ps[1] + ps[2] + ps[3] + ps[4] + ps[5] + ps[6] + ps[7] + ps[8] + ps[9]
            + ps[10] + ps[11] + ps[12] + ps[13] + ps[14] + ps[15] + ps[16] + ps[17] + ps[18] + ps[19]
            + ps[20],
{
    reveal_with_fuel(upto, 22);
    assert(upto(ps, 0) =~= seq![]);
    assert(upto(ps, 1) =~= ps[0]);
}

/// Every walked directory directly in one of the hubs of the home directory's library is a candidate,
/// of the hub's kind, under its own name.
pub proof fn law_directories_of_the_library_are_candidates(
    env: EnvView,
    disk: DiskView,
    h: int,
    node: DirView,
    i: int,
)
    requires
        0 <= h < hubs().len(),
        node_in(env.trees, child(child(env.home, "Library"@), hubs()[h].0)) == Some(node),
        0 <= i < node.children.len(),
    ensures
        candidates_in(env, disk).contains(
            CandidateView {
                path: child(
                    child(child(env.home, "Library"@), hubs()[h].0),
                    node.children[i].name,
                ),
                name: node.children[i].name,
                parent_kind: hubs()[h].1,
                vendor: None,
                is_file: false,
            },
        ),
{
    let t = env.trees;
    let lib = child(env.home, "Library"@);
    let hub = child(lib, hubs()[h].0);
    let kind = hubs()[h].1;
    lemma_depth1(t, hub, kind, node, i);
    let c = dir_candidate(hub, kind, node.children[i].name);
    let ps = parts(env, disk);
    if h < 2 {
        let names = dirs_in(t, hub);
        let r = lemma_depth1_and_2(t, hub, kind, names, i, -1);
        assert(ps[h] == depth1_and_2(t, hub, kind, names));
        lemma_parts(env, disk, h, r.0);
    } else {
        let m: int = if h == 2 {
            2
        } else if h == 3 {
            3
        } else if h == 4 {
            4
        } else if h == 5 {
            5
        } else if h == 6 {
            7
        } else {
            10
        };
        assert(ps[m] == depth1(t, hub, kind));
        lemma_parts(env, disk, m, i);
    }
}

/// In the caches and among the supporting files the directories of a vendor are candidates too: those
/// in a directory whose name holds no dot, under the vendor's name.
pub proof fn law_directories_of_a_vendor_are_candidates(
    env: EnvView,
    disk: DiskView,
    h: int,
    node: DirView,
    i: int,
    inner: DirView,
    k: int,
)
    requires
        0 <= h < 2,
        node_in(env.trees, child(child(env.home, "Library"@), hubs()[h].0)) == Some(node),
        0 <= i < node.children.len(),
        free_of(node.children[i].name, '.'),
        node_in(
            env.trees,
            child(child(child(env.home, "Library"@), hubs()[h].0), node.children[i].name),
        ) == Some(inner),
        0 <= k < inner.children.len(),
    ensures
        candidates_in(env, disk).contains(
            CandidateView {
                path: child(
                    child(child(child(env.home, "Library"@), hubs()[h].0), node.children[i].name),
                    inner.children[k].name,
                ),
                name: inner.children[k].name,
                parent_kind: hubs()[h].1,
                vendor: Some(node.children[i].name),
                is_file: false,
            },
        ),
{
    let t = env.trees;
    let lib = child(env.home, "Library"@);
    let hub = child(lib, hubs()[h].0);
    let kind = hubs()[h].1;
    lemma_depth1(t, hub, kind, node, i);
    let names = dirs_in(t, hub);
    let vendor = names[i];
    assert(!vendor.contains('.')) by {
        if vendor.contains('.') {
            let x = choose|x: int| 0 <= x < vendor.len() && vendor[x] == '.';
            assert(vendor[x] != '.');
        }
    }
    lemma_depth1(t, child(hub, vendor), kind, inner, k);
    let r = lemma_depth1_and_2(t, hub, kind, names, i, k);
    let ps = parts(env, disk);
    assert(ps[h] == depth1_and_2(t, hub, kind, names));
    lemma_parts(env, disk, h, r.1);
}

/// Every property list among the preferences is a candidate under its name without the ending; the
/// directory of one host's is none.
pub proof fn law_preferences_are_candidates(env: EnvView, disk: DiskView, e: int, name: Seq<char>)
    requires
        disk.list(child(child(env.home, "Library"@), "Preferences"@)) is Some,
        0 <= e < disk.list(child(child(env.home, "Library"@), "Preferences"@))->0.len(),
        disk.list(child(child(env.home, "Library"@), "Preferences"@))->0[e].0 == name + ".plist"@,
    ensures
        candidates_in(env, disk).contains(
            CandidateView {
                path: child(
                    child(child(env.home, "Library"@), "Preferences"@),
                    name + ".plist"@,
                ),
                name,
                parent_kind: EntryKind::Preferences,
                vendor: None,
                is_file: true,
            },
        ),
{
    reveal_strlit(".plist");
    reveal_strlit("ByHost");
    let hub = child(child(env.home, "Library"@), "Preferences"@);
    let l = disk.list(hub)->0;
    let full = name + ".plist"@;
    assert(full.skip(full.len() - 6) =~= ".plist"@);
    assert(full.take(full.len() - 6) =~= name);
    assert(full != "ByHost"@) by {
        if full == "ByHost"@ {
            assert(full.last() == 't' && full.last() == 't');
            assert(full[full.len() - 2] == 's');
            assert(full[full.len() - 6] == '.');
            assert("ByHost"@[0] == 'B');
        }
    }
    let pick = file_candidates(disk, hub, FileHub::Plists);
    let k = lemma_picked(l, pick, e);
    let ps = parts(env, disk);
    assert(ps[11] == files_in(disk, hub, FileHub::Plists));
    lemma_parts(env, disk, 11, k);
}

/// Every hidden directory of the home directory is a candidate, but for the few that belong to no
/// program.
pub proof fn law_hidden_directories_are_candidates(
    env: EnvView,
    disk: DiskView,
    node: DirView,
    i: int,
)
    requires
        node_in(env.trees, env.home) == Some(node),
        0 <= i < node.children.len(),
        node.children[i].name.len() > 0,
        node.children[i].name[0] == '.',
        !seq![".Trash"@, ".git"@, ".ssh"@, ".DS_Store"@, ".config"@, ".cache"@, ".local"@].contains(
            node.children[i].name,
        ),
    ensures
        candidates_in(env, disk).contains(
            CandidateView {
                path: child(env.home, node.children[i].name),
                name: node.children[i].name,
                parent_kind: EntryKind::DotDir,
                vendor: None,
                is_file: false,
            },
        ),
{
    let names = dirs_in(env.trees, env.home);
    let x = seq![".Trash"@, ".git"@, ".ssh"@, ".DS_Store"@, ".config"@, ".cache"@, ".local"@];
    let name = node.children[i].name;
    assert(names[i] == name);
    assert(x[0] == ".Trash"@ && x[1] == ".git"@ && x[2] == ".ssh"@ && x[3] == ".DS_Store"@);
    assert(x[4] == ".config"@ && x[5] == ".cache"@ && x[6] == ".local"@);
    let k = lemma_picked(names, dotdir(env.home), i);
    let ps = parts(env, disk);
    assert(ps[16] == names.filter_map(dotdir(env.home)));
    lemma_parts(env, disk, 16, k);
}

/// Every formula that Homebrew lists is an owner, under `formula:` and its name, with its directory in
/// the Cellar where the listing gives none.
pub proof fn law_formulae_are_owners(env: EnvView, i: int, name: Seq<char>)
    requires
        0 <= i < env.findings(ScannerId::Brew).len(),
        env.findings(ScannerId::Brew)[i].kind == FindingKind::BrewFormula,
        text_field(env.findings(ScannerId::Brew)[i].meta, "name"@) == Some(name),
    ensures
        exists|j: int|
            0 <= j < owners_in(env).formulae.len() && (
            #[trigger] owners_in(env).formulae[j]).owner.key == "formula:"@ + name
                && owners_in(env).formulae[j].owner.name == name && owners_in(
                env,
            ).formulae[j].owner.kind == OwnerKind::Formula && owners_in(env).formulae[j].owner.path
                == (match env.findings(ScannerId::Brew)[i].path {
                Some(p) => Some(p),
                None => match env.brew_prefix {
                    Some(p) => Some(child(child(p, "Cellar"@), name)),
                    None => None,
                },
            }),
        owners_in(env).homebrew is Some,
{
    let fs = env.findings(ScannerId::Brew);
    let j = lemma_picked(fs, formula_in(env.brew_prefix), i);
    assert(owners_in(env).formulae[j].owner.key == "formula:"@ + name);
}

} // verus!
