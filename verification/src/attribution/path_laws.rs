//! What holds of paths: of their spelling, of where they really lead, and of what they measure.

use vstd::prelude::*;

use crate::attribution::paths::{
    canonical, data_volume, escape_at, hex_digit, in_private, node_in, off_git, size_at,
    trees_total, unescaped, uri_path, Sized,
};
use crate::attribution::projects::discovery_laws::{law_a_name_is_one_step, single_name};
use crate::disk::DiskView;
use crate::fspath::{
    child, counted, dot, extension_of, file_name, is_absolute, is_name, joined, parent, path_of,
    path_text, root, slashed, stem_of, under,
};
use crate::scan::{dir_at, dir_named, DirView, TreeView};
use crate::text::{after_last, index_of, split};
use crate::text_laws::{free_of, law_first_piece, lemma_first_place};

verus! {

/// Whether all names of a path are single names.
pub open spec fn single_names(names: Seq<Seq<char>>) -> bool {
    forall|i: int| 0 <= i < names.len() ==> single_name(#[trigger] names[i])
}

proof fn lemma_split_push(s: Seq<char>, n: Seq<char>)
    requires
        free_of(n, '/'),
    ensures
        split(s + seq!['/'] + n, '/') == split(s, '/').push(n),
    decreases s.len(),
{
    crate::text::lemma_span(s, crate::text::other_than('/'));
    let k = index_of(s, '/') as int;
    law_first_piece(n, seq![], '/');
    if k >= s.len() {
        assert(free_of(s, '/')) by {
            assert forall|j: int| 0 <= j < s.len() implies #[trigger] s[j] != '/' by {
                assert(crate::text::other_than('/')(s[j]));
            }
        }
        law_first_piece(s, n, '/');
        assert(seq![s] + seq![n] =~= seq![s].push(n));
    } else {
        let a = s.take(k);
        let b = s.skip(k + 1);
        assert(free_of(a, '/')) by {
            assert forall|j: int| 0 <= j < a.len() implies #[trigger] a[j] != '/' by {
                assert(crate::text::other_than('/')(s[j]));
            }
        }
        assert(s[k] == '/');
        assert(s =~= a + seq!['/'] + b);
        assert(s + seq!['/'] + n =~= a + seq!['/'] + (b + seq!['/'] + n));
        law_first_piece(a, b, '/');
        law_first_piece(a, b + seq!['/'] + n, '/');
        lemma_split_push(b, n);
        assert(seq![a] + split(b, '/').push(n) =~= (seq![a] + split(b, '/')).push(n));
    }
}

proof fn lemma_slashed_split(names: Seq<Seq<char>>)
    requires
        names.len() > 0,
        single_names(names),
    ensures
        split(slashed(names), '/') == names,
    decreases names.len(),
{
    if names.len() == 1 {
        assert(single_name(names[0]));
        law_first_piece(names[0], seq![], '/');
        assert(seq![names[0]] =~= names);
    } else {
        let front = names.drop_last();
        assert(single_names(front)) by {
            assert forall|i: int| 0 <= i < front.len() implies single_name(#[trigger] front[i]) by {
                assert(front[i] == names[i]);
            }
        }
        lemma_slashed_split(front);
        assert(single_name(names[names.len() - 1]));
        lemma_split_push(slashed(front), names.last());
        assert(front.push(names.last()) =~= names);
    }
}

proof fn lemma_all_counted(names: Seq<Seq<char>>)
    requires
        single_names(names),
    ensures
        names.filter(counted()) == names,
    decreases names.len(),
{
    reveal(Seq::filter);
    reveal_strlit(".");
    assert(dot() =~= seq!['.']);
    if names.len() > 0 {
        let front = names.drop_last();
        assert(single_names(front)) by {
            assert forall|i: int| 0 <= i < front.len() implies single_name(#[trigger] front[i]) by {
                assert(front[i] == names[i]);
            }
        }
        lemma_all_counted(front);
        assert(single_name(names[names.len() - 1]));
        assert(front.push(names.last()) =~= names);
    } else {
        assert(names.filter(counted()) =~= names);
    }
}

/// A path reads back from its spelling, be it absolute or not.
pub proof fn law_paths_read_back_from_their_spelling(names: Seq<Seq<char>>)
    requires
        single_names(names),
        names.len() > 0,
    ensures
        path_of(path_text(names)) == names,
        path_of(path_text(seq![root()] + names)) == seq![root()] + names,
{
    reveal_strlit("/");
    reveal_strlit(".");
    assert(root() =~= seq!['/']);
    assert(dot() =~= seq!['.']);
    assert(single_name(names[0]));
    lemma_slashed_split(names);
    lemma_all_counted(names);
    let s = slashed(names);
    assert(names[0] != root()) by {
        if names[0] == root() {
            assert(names[0][0] == '/');
        }
    }
    assert(path_text(names) == s);
    assert(s.len() > 0 && s[0] == names[0][0]) by {
        lemma_slashed_first(names);
    }
    assert(names[0][0] != '/');
    assert(split(s, '/')[0] != dot());
    assert(path_of(s) == names);
    let abs = seq![root()] + names;
    assert(abs.skip(1) =~= names);
    let t = root() + s;
    assert(path_text(abs) == t);
    assert(t[0] == '/');
    assert(t =~= Seq::<char>::empty() + seq!['/'] + s);
    law_first_piece(seq![], s, '/');
    let pieces = split(t, '/');
    assert(pieces == seq![Seq::<char>::empty()] + names);
    lemma_empty_dropped(names);
}

proof fn lemma_slashed_first(names: Seq<Seq<char>>)
    requires
        names.len() > 0,
        names[0].len() > 0,
    ensures
        slashed(names).len() > 0,
        slashed(names)[0] == names[0][0],
    decreases names.len(),
{
    if names.len() > 1 {
        lemma_slashed_first(names.drop_last());
    }
}

proof fn lemma_empty_dropped(names: Seq<Seq<char>>)
    requires
        single_names(names),
    ensures
        (seq![Seq::<char>::empty()] + names).filter(counted()) == names,
{
    let none = Seq::<char>::empty();
    lemma_all_counted(names);
    Seq::filter_distributes_over_add(seq![none], names, counted());
    assert(seq![none].filter(counted()) =~= seq![]) by {
        reveal(Seq::filter);
        assert(seq![none].drop_last() =~= seq![]);
        assert(Seq::<Seq<char>>::empty().filter(counted()) =~= seq![]);
    }
    assert(seq![] + names =~= names);
}

/// A single name in a directory lies in it, and is its last name.
pub proof fn law_a_name_lies_in_its_directory(at: Seq<Seq<char>>, name: Seq<char>)
    requires
        single_name(name),
        is_name(name),
    ensures
        parent(child(at, name)) == Some(at),
        file_name(child(at, name)) == Some(name),
        at.is_prefix_of(child(at, name)),
{
    law_a_name_is_one_step(at, name);
    reveal_strlit("/");
    assert(name != root()) by {
        if name == root() {
            assert(root() =~= seq!['/']);
            assert(name[0] == '/');
        }
    }
    assert(at.push(name).drop_last() =~= at);
}

/// What a tree holds at a path below its root: the directory that the names lead to, one in the other,
/// where no two directories in one place bear the same name.
pub proof fn law_directories_are_found_by_name(d: DirView, chain: Seq<DirView>)
    requires
        chain.len() > 0,
        chain[0] == d,
        forall|i: int|
            0 < i < chain.len() ==> chain[i - 1].children.contains(#[trigger] chain[i]) && forall|
                k: int,
            |
                0 <= k < chain[i - 1].children.len() && (#[trigger] chain[i - 1].children[k]).name
                    == chain[i].name ==> chain[i - 1].children[k] == chain[i],
    ensures
        dir_at(d, Seq::new((chain.len() - 1) as nat, |i: int| chain[i + 1].name)) == Some(
            chain.last(),
        ),
    decreases chain.len(),
{
    let names = Seq::new((chain.len() - 1) as nat, |i: int| chain[i + 1].name);
    if chain.len() > 1 {
        let t = chain.skip(1);
        let rest = Seq::new((t.len() - 1) as nat, |i: int| t[i + 1].name);
        assert(chain[0].children.contains(chain[1]));
        assert(names[0] == chain[1].name);
        assert(names.skip(1) =~= rest);
        lemma_dir_named(d.children, chain[1]);
        assert forall|i: int| 0 < i < t.len() implies t[i - 1].children.contains(#[trigger] t[i])
            && forall|k: int|
            0 <= k < t[i - 1].children.len() && (#[trigger] t[i - 1].children[k]).name == t[i].name
                ==> t[i - 1].children[k] == t[i] by {
            assert(t[i] == chain[i + 1] && t[i - 1] == chain[i]);
            assert(chain[i + 1 - 1].children.contains(chain[i + 1]));
        }
        law_directories_are_found_by_name(chain[1], t);
        assert(t.last() == chain.last());
    }
}

proof fn lemma_dir_named(dirs: Seq<DirView>, d: DirView)
    requires
        dirs.contains(d),
        forall|k: int| 0 <= k < dirs.len() && (#[trigger] dirs[k]).name == d.name ==> dirs[k] == d,
    ensures
        dir_named(dirs, d.name) == Some(d),
    decreases dirs.len(),
{
    let i = choose|i: int| 0 <= i < dirs.len() && dirs[i] == d;
    if dirs[0].name != d.name {
        let t = dirs.skip(1);
        assert(t[i - 1] == d);
        assert forall|k: int| 0 <= k < t.len() && (#[trigger] t[k]).name == d.name implies t[k]
            == d by {
            assert(t[k] == dirs[k + 1]);
        }
        lemma_dir_named(t, d);
    }
}

/// The size of a walked directory is what the walk measured; the first tree that has the directory
/// counts.
pub proof fn law_walked_directories_have_their_size(
    trees: Seq<TreeView>,
    disk: DiskView,
    n: int,
    names: Seq<Seq<char>>,
    d: DirView,
)
    requires
        0 <= n < trees.len(),
        dir_at(trees[n].node, names) == Some(d),
        forall|m: int|
            0 <= m < n ==> !(#[trigger] trees[m]).root.is_prefix_of(trees[n].root + names),
        d.errors == 0,
    ensures
        size_at(trees, disk, trees[n].root + names) == Sized::Dir(d.alloc),
{
    lemma_node_in(trees, n, names, d);
}

proof fn lemma_node_in(trees: Seq<TreeView>, n: int, names: Seq<Seq<char>>, d: DirView)
    requires
        0 <= n < trees.len(),
        dir_at(trees[n].node, names) == Some(d),
        forall|m: int|
            0 <= m < n ==> !(#[trigger] trees[m]).root.is_prefix_of(trees[n].root + names),
    ensures
        node_in(trees, trees[n].root + names) == Some(d),
    decreases trees.len(),
{
    let p = trees[n].root + names;
    if n == 0 {
        assert(p.take(trees[0].root.len() as int) =~= trees[0].root);
        assert(p.skip(trees[0].root.len() as int) =~= names);
    } else {
        assert(!trees[0].root.is_prefix_of(p));
        assert(!under(p, trees[0].root)) by {
            if under(p, trees[0].root) {
                assert(p.subrange(0, trees[0].root.len() as int) =~= p.take(
                    trees[0].root.len() as int,
                ));
            }
        }
        let t = trees.skip(1);
        assert(t[n - 1] == trees[n]);
        assert forall|m: int| 0 <= m < n - 1 implies !(#[trigger] t[m]).root.is_prefix_of(p) by {
            assert(t[m] == trees[m + 1]);
        }
        lemma_node_in(t, n - 1, names, d);
    }
}

/// A path outside every tree has the size of its file, and none where it is no file.
pub proof fn law_files_have_their_size(trees: Seq<TreeView>, disk: DiskView, p: Seq<Seq<char>>)
    requires
        forall|m: int| 0 <= m < trees.len() ==> !(#[trigger] trees[m]).root.is_prefix_of(p),
    ensures
        size_at(trees, disk, p) == (match disk.size(p) {
            Some(n) => Sized::File(n),
            None => Sized::Unsized,
        }),
{
    lemma_no_node(trees, p);
}

proof fn lemma_no_node(trees: Seq<TreeView>, p: Seq<Seq<char>>)
    requires
        forall|m: int| 0 <= m < trees.len() ==> !(#[trigger] trees[m]).root.is_prefix_of(p),
    ensures
        node_in(trees, p) is None,
    decreases trees.len(),
{
    if trees.len() > 0 {
        assert(!trees[0].root.is_prefix_of(p));
        if under(p, trees[0].root) {
            assert(p.subrange(0, trees[0].root.len() as int) =~= p.take(
                trees[0].root.len() as int,
            ));
        }
        let t = trees.skip(1);
        assert forall|m: int| 0 <= m < t.len() implies !(#[trigger] t[m]).root.is_prefix_of(p) by {
            assert(t[m] == trees[m + 1]);
        }
        lemma_no_node(t, p);
    }
}

/// One more tree adds its bytes to the total, and no tree makes none.
pub proof fn law_the_total_grows_by_each_tree(trees: Seq<TreeView>, t: TreeView)
    ensures
        trees_total(trees.push(t)) == trees_total(trees) + t.bytes,
        trees_total(Seq::<TreeView>::empty()) == 0,
{
    assert(trees.push(t).drop_last() =~= trees);
}

proof fn lemma_unescaped_plain(s: Seq<u8>, i: int, n: int)
    requires
        0 <= i <= n <= s.len(),
        forall|j: int| i <= j < n ==> #[trigger] s[j] != 37,
    ensures
        unescaped(s, i) == s.subrange(i, n) + unescaped(s, n),
    decreases n - i,
{
    if i < n {
        assert(s[i] != 37);
        lemma_unescaped_plain(s, i + 1, n);
        assert(seq![s[i]] + s.subrange(i + 1, n) =~= s.subrange(i, n));
        assert(seq![s[i]] + (s.subrange(i + 1, n) + unescaped(s, n)) =~= s.subrange(i, n)
            + unescaped(s, n));
    } else {
        assert(s.subrange(i, n) =~= seq![]);
        assert(seq![] + unescaped(s, n) =~= unescaped(s, n));
    }
}

proof fn lemma_unescaped_tail(a: Seq<u8>, b: Seq<u8>, i: int)
    requires
        0 <= i <= b.len(),
    ensures
        unescaped(a + b, a.len() + i) == unescaped(b, i),
    decreases b.len() - i,
{
    let s = a + b;
    let k = a.len() + i;
    if i < b.len() {
        assert(s[k] == b[i]);
        if i + 1 < b.len() {
            assert(s[k + 1] == b[i + 1]);
        }
        if i + 2 < b.len() {
            assert(s[k + 2] == b[i + 2]);
        }
        assert(escape_at(s, k) <==> escape_at(b, i));
        if escape_at(b, i) {
            lemma_unescaped_tail(a, b, i + 3);
        } else {
            lemma_unescaped_tail(a, b, i + 1);
        }
    }
}

/// Escapes are resolved from front to back: bytes without a percent sign stay, and a percent sign with
/// two hexadecimal digits, in whatever case, gives way to the byte that they spell.
pub proof fn law_escapes_are_resolved(plain: Seq<u8>, h: u8, l: u8, rest: Seq<u8>)
    requires
        forall|j: int| 0 <= j < plain.len() ==> #[trigger] plain[j] != 37,
        hex_digit(h) is Some,
        hex_digit(l) is Some,
    ensures
        unescaped(plain, 0) == plain,
        unescaped(plain + (seq![37u8, h, l] + rest), 0) == plain + seq![
            (hex_digit(h)->0 * 16 + hex_digit(l)->0) as u8,
        ] + unescaped(rest, 0),
{
    lemma_unescaped_plain(plain, 0, plain.len() as int);
    assert(plain.subrange(0, plain.len() as int) =~= plain);
    assert(unescaped(plain, plain.len() as int) =~= seq![]);
    assert(plain + seq![] =~= plain);
    let b = seq![37u8, h, l] + rest;
    let s = plain + b;
    let n = plain.len() as int;
    assert forall|j: int| 0 <= j < n implies #[trigger] s[j] != 37 by {
        assert(s[j] == plain[j]);
    }
    lemma_unescaped_plain(s, 0, n);
    assert(s.subrange(0, n) =~= plain);
    assert(s[n] == 37 && s[n + 1] == h && s[n + 2] == l);
    assert(escape_at(s, n));
    let front = plain + seq![37u8, h, l];
    assert(s =~= front + rest);
    lemma_unescaped_tail(front, rest, 0);
    assert(unescaped(s, n) == seq![(hex_digit(h)->0 * 16 + hex_digit(l)->0) as u8] + unescaped(
        rest,
        0,
    ));
    assert(plain + (seq![(hex_digit(h)->0 * 16 + hex_digit(l)->0) as u8] + unescaped(rest, 0))
        =~= plain + seq![(hex_digit(h)->0 * 16 + hex_digit(l)->0) as u8] + unescaped(rest, 0));
}

/// The hexadecimal digits, small and capital.
pub proof fn law_hexadecimal_digits(n: u8)
    requires
        n < 10,
    ensures
        hex_digit((48 + n) as u8) == Some(n),
        n < 6 ==> hex_digit((97 + n) as u8) == Some((10 + n) as u8),
        n < 6 ==> hex_digit((65 + n) as u8) == Some((10 + n) as u8),
{
}

/// The path of a `file://` URI starts at the first slash behind the host.
pub proof fn law_path_of_a_file_uri(host: Seq<char>, path: Seq<char>)
    requires
        free_of(host, '/'),
    ensures
        uri_path("file://"@ + host + seq!['/'] + path) == Some(path),
        uri_path("file://"@ + host) is None,
{
    reveal_strlit("file://");
    let p = "file://"@;
    let u = p + host + seq!['/'] + path;
    assert(u.take(7) =~= p);
    assert(u.skip(7) =~= host + seq!['/'] + path);
    lemma_first_place(host, path, '/');
    let v = p + host;
    assert(v.take(7) =~= p);
    assert(v.skip(7) =~= host);
    crate::text_laws::lemma_no_place(host, '/');
}

proof fn lemma_literal_paths()
    ensures
        path_of("/"@) == seq![root()],
        path_of("/var"@) == seq![root(), "var"@],
        path_of("/tmp"@) == seq![root(), "tmp"@],
        path_of("/etc"@) == seq![root(), "etc"@],
        path_of("/private"@) == seq![root(), "private"@],
{
    reveal_strlit("/");
    reveal_strlit("/var");
    reveal_strlit("/tmp");
    reveal_strlit("/etc");
    reveal_strlit("/private");
    reveal_strlit("var");
    reveal_strlit("tmp");
    reveal_strlit("etc");
    reveal_strlit("private");
    reveal_strlit(".");
    assert(root() =~= seq!['/']);
    assert(single_names(seq!["var"@]) && single_names(seq!["tmp"@]) && single_names(seq!["etc"@])
        && single_names(seq!["private"@]));
    law_paths_read_back_from_their_spelling(seq!["var"@]);
    law_paths_read_back_from_their_spelling(seq!["tmp"@]);
    law_paths_read_back_from_their_spelling(seq!["etc"@]);
    law_paths_read_back_from_their_spelling(seq!["private"@]);
    assert((seq![root()] + seq!["var"@]).skip(1) =~= seq!["var"@]);
    assert((seq![root()] + seq!["tmp"@]).skip(1) =~= seq!["tmp"@]);
    assert((seq![root()] + seq!["etc"@]).skip(1) =~= seq!["etc"@]);
    assert((seq![root()] + seq!["private"@]).skip(1) =~= seq!["private"@]);
    assert("/var"@ =~= root() + "var"@);
    assert("/tmp"@ =~= root() + "tmp"@);
    assert("/etc"@ =~= root() + "etc"@);
    assert("/private"@ =~= root() + "private"@);
    assert(seq![root()] + seq!["var"@] =~= seq![root(), "var"@]);
    assert(seq![root()] + seq!["tmp"@] =~= seq![root(), "tmp"@]);
    assert(seq![root()] + seq!["etc"@] =~= seq![root(), "etc"@]);
    assert(seq![root()] + seq!["private"@] =~= seq![root(), "private"@]);
    law_first_piece(seq![], seq![], '/');
    assert(Seq::<char>::empty() + seq!['/'] + Seq::<char>::empty() =~= "/"@);
    law_first_piece(Seq::<char>::empty(), Seq::<char>::empty(), '/');
    let pieces = split("/"@, '/');
    assert(pieces =~= seq![Seq::<char>::empty(), Seq::<char>::empty()]);
    reveal(Seq::filter);
    assert(pieces.drop_last() =~= seq![Seq::<char>::empty()]);
    assert(seq![Seq::<char>::empty()].drop_last() =~= seq![]);
    assert(Seq::<Seq<char>>::empty().filter(counted()) =~= seq![]);
    assert(pieces.filter(counted()) =~= seq![]);
    assert(path_of("/"@) =~= seq![root()]);
}

/// A path below `/var`, `/tmp` or `/etc` really lies below `/private`, and what lies in a `.git` directly
/// is the repository's.
pub proof fn law_links_of_the_root(top: Seq<char>, names: Seq<Seq<char>>)
    requires
        top == "var"@ || top == "tmp"@ || top == "etc"@,
        !data_volume().is_prefix_of(seq![root(), top] + names),
        names.len() > 0,
        names.last() != ".git"@,
    ensures
        canonical(seq![root(), top] + names) == seq![root(), "private"@, top] + names,
        canonical((seq![root(), top] + names).push(".git"@)) == seq![root(), "private"@, top] + names
            || data_volume().is_prefix_of((seq![root(), top] + names).push(".git"@)),
{
    lemma_literal_paths();
    let p = seq![root(), top] + names;
    let want = seq![root(), "private"@, top] + names;
    lemma_canonical_private(top, names);
    assert(off_git(want) == want) by {
        assert(want.last() == names.last());
    }
    let q = p.push(".git"@);
    let more = names.push(".git"@);
    assert(q =~= seq![root(), top] + more);
    if !data_volume().is_prefix_of(q) {
        lemma_canonical_private(top, more);
        let w = seq![root(), "private"@, top] + more;
        assert(w.last() == ".git"@);
        assert(is_name(".git"@)) by {
            reveal_strlit(".git");
            reveal_strlit(".");
            reveal_strlit("..");
            reveal_strlit("/");
            assert(".git"@.len() == 4);
        }
        assert(w.drop_last() =~= want);
    }
}

proof fn lemma_canonical_private(top: Seq<char>, names: Seq<Seq<char>>)
    requires
        top == "var"@ || top == "tmp"@ || top == "etc"@,
        !data_volume().is_prefix_of(seq![root(), top] + names),
    ensures
        canonical(seq![root(), top] + names) == off_git(seq![root(), "private"@, top] + names),
{
    lemma_literal_paths();
    let p = seq![root(), top] + names;
    assert(!under(p, data_volume())) by {
        if under(p, data_volume()) {
            assert(p.subrange(0, data_volume().len() as int) =~= p.take(data_volume().len() as int));
        }
    }
    assert(p.take(2) =~= seq![root(), top]);
    assert(p.take(1) =~= seq![root()]);
    assert(in_private(p));
    let rest = p.skip(1);
    assert(rest =~= seq![top] + names);
    assert(!is_absolute(rest)) by {
        reveal_strlit("/");
        reveal_strlit("var");
        reveal_strlit("tmp");
        reveal_strlit("etc");
        assert(top.len() == 3);
        assert(root().len() == 1);
    }
    assert(rest[0] != dot()) by {
        reveal_strlit(".");
        reveal_strlit("var");
        reveal_strlit("tmp");
        reveal_strlit("etc");
        assert(dot().len() == 1 && top.len() == 3);
    }
    assert(joined(seq![root(), "private"@], rest) =~= seq![root(), "private"@, top] + names);
}

proof fn lemma_data_volume()
    ensures
        data_volume() == seq![root(), "System"@, "Volumes"@, "Data"@],
{
    reveal_strlit("/System/Volumes/Data");
    reveal_strlit("System");
    reveal_strlit("Volumes");
    reveal_strlit("Data");
    let names = seq!["System"@, "Volumes"@, "Data"@];
    assert(single_names(names)) by {
        assert(names[0].len() == 6 && names[1].len() == 7 && names[2].len() == 4);
        assert(seq!['.'].len() == 1);
    }
    law_paths_read_back_from_their_spelling(names);
    let tail = seq!["Volumes"@, "Data"@];
    let last = seq!["Data"@];
    assert(names.skip(1) =~= tail);
    assert(tail.skip(1) =~= last);
    assert((seq![root()] + names).skip(1) =~= names);
    assert(last.skip(1).len() == 0);
    reveal_with_fuel(slashed, 4);
    assert(path_text(seq![root()] + names) =~= "/System/Volumes/Data"@);
    assert(seq![root()] + names =~= seq![root(), "System"@, "Volumes"@, "Data"@]);
}

proof fn lemma_not_private(names: Seq<Seq<char>>)
    requires
        names.len() > 0,
        names[0] != "var"@,
        names[0] != "tmp"@,
        names[0] != "etc"@,
    ensures
        !in_private(seq![root()] + names),
{
    lemma_literal_paths();
    let r = seq![root()] + names;
    assert(r[1] == names[0]);
    if in_private(r) {
        assert(r.take(2)[1] == names[0]);
        assert(seq![root(), "var"@][1] == "var"@);
        assert(seq![root(), "tmp"@][1] == "tmp"@);
        assert(seq![root(), "etc"@][1] == "etc"@);
    }
}

/// What lies on the data volume lies, by the same names, in the root.
pub proof fn law_the_data_volume_is_the_root(names: Seq<Seq<char>>)
    requires
        names.len() > 0,
        single_names(names),
        names[0] != "var"@,
        names[0] != "tmp"@,
        names[0] != "etc"@,
        names.last() != ".git"@,
    ensures
        canonical(seq![root(), "System"@, "Volumes"@, "Data"@] + names) == seq![root()] + names,
{
    lemma_data_volume();
    lemma_literal_paths();
    let p = data_volume() + names;
    let r = seq![root()] + names;
    assert(p.take(4) =~= data_volume());
    assert(p.skip(4) =~= names);
    assert(single_name(names[0]));
    assert(names[0] != root()) by {
        if names[0] == root() {
            assert(names[0][0] == '/');
        }
    }
    assert(names[0] != dot());
    assert(joined(seq![root()], names) =~= r);
    assert(r[1] == names[0]);
    lemma_not_private(names);
    assert(r.last() == names.last());
}

/// The directory that git keeps in a checkout stands for the checkout.
pub proof fn law_git_directories_stand_for_their_checkout(names: Seq<Seq<char>>)
    requires
        names.len() > 0,
        single_names(names),
        names[0] != "var"@,
        names[0] != "tmp"@,
        names[0] != "etc"@,
        names[0] != "System"@,
        names.last() != ".git"@,
    ensures
        canonical(seq![root()] + names.push(".git"@)) == seq![root()] + names,
        canonical(seq![root()] + names) == seq![root()] + names,
{
    reveal_strlit(".git");
    lemma_data_volume();
    lemma_literal_paths();
    let r = seq![root()] + names;
    let g = seq![root()] + names.push(".git"@);
    assert(r[1] == names[0] && g[1] == names[0]);
    lemma_not_private(names);
    lemma_not_private(names.push(".git"@));
    if under(r, data_volume()) {
        assert(r.take(4)[1] == "System"@);
    }
    if under(g, data_volume()) {
        assert(g.take(4)[1] == "System"@);
    }
    assert(g.last() == ".git"@);
    assert(".git"@.len() == 4);
    assert(is_name(".git"@)) by {
        assert(root().len() == 1 && dot().len() == 1 && crate::fspath::dot_dot().len() == 2);
    }
    assert(g.drop_last() =~= r);
    assert(r.last() == names.last());
}

/// A name with an ending is its stem, a point and its ending.
pub proof fn law_stems_and_endings(stem: Seq<char>, ending: Seq<char>)
    requires
        stem.len() > 0,
        free_of(ending, '.'),
    ensures
        stem_of(stem + seq!['.'] + ending) == stem,
        extension_of(stem + seq!['.'] + ending) == Some(ending),
        stem_of(seq!['.'] + ending) == seq!['.'] + ending,
        extension_of(seq!['.'] + ending) is None,
        stem_of(ending) == ending,
        extension_of(ending) is None,
{
    lemma_last_point(stem, ending);
    lemma_last_point(seq![], ending);
    assert(Seq::<char>::empty() + seq!['.'] + ending =~= seq!['.'] + ending);
    lemma_no_point(ending);
    let s = stem + seq!['.'] + ending;
    assert(s.take(stem.len() as int) =~= stem);
    assert(s.skip(stem.len() as int + 1) =~= ending);
}

proof fn lemma_last_point(a: Seq<char>, b: Seq<char>)
    requires
        free_of(b, '.'),
    ensures
        after_last(a + seq!['.'] + b, '.') == a.len() + 1,
    decreases b.len(),
{
    let s = a + seq!['.'] + b;
    if b.len() > 0 {
        let t = b.drop_last();
        assert(s.last() == b[b.len() - 1]);
        assert(s.drop_last() =~= a + seq!['.'] + t);
        assert forall|i: int| 0 <= i < t.len() implies #[trigger] t[i] != '.' by {
            assert(b[i] != '.');
        }
        lemma_last_point(a, t);
    } else {
        assert(s.last() == '.');
    }
}

proof fn lemma_no_point(s: Seq<char>)
    requires
        free_of(s, '.'),
    ensures
        after_last(s, '.') == 0,
    decreases s.len(),
{
    if s.len() > 0 {
        assert(s.last() == s[s.len() - 1]);
        assert forall|i: int| 0 <= i < s.drop_last().len() implies #[trigger] s.drop_last()[i]
            != '.' by {
            assert(s[i] != '.');
        }
        lemma_no_point(s.drop_last());
    }
}

} // verus!
