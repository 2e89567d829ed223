//! Text templates, patterns for names, and the paths that a pattern stands for.

use vstd::prelude::*;
use vstd::slice::slice_subrange;

use crate::attribution::projects::{put_path, put_paths, put_text};
use crate::disk::{Disk, DiskView, NodeKind};
use crate::fspath::{child, path_of, FilePath};
use crate::seqs::{flat, lemma_filter_map_start, lemma_flat_start, lemma_flat_step};
use crate::text::{
    cat3, chars_of, ends, ends_with, find_char, find_sub, find_text, has_char, holds_char, index_of,
    lemma_find_from, lemma_span, occurs_at, same, split, split_at_char, starts, string_of,
    strip_prefix,
};

verus! {

broadcast use crate::disk::group_asks;

/// The value of the first token with this name.
pub open spec fn token_value(tokens: Seq<(Seq<char>, Seq<char>)>, name: Seq<char>) -> Option<
    Seq<char>,
>
    decreases tokens.len(),
{
    if tokens.len() == 0 {
        None
    } else if tokens[0].0 == name {
        Some(tokens[0].1)
    } else {
        token_value(tokens.skip(1), name)
    }
}

/// A token's value, or the token as it was written.
pub open spec fn token_text(tokens: Seq<(Seq<char>, Seq<char>)>, name: Seq<char>) -> Seq<char> {
    match token_value(tokens, name) {
        Some(v) => v,
        None => seq!['{'] + name + seq!['}'],
    }
}

/// A template with the tokens' values put in for `{token}`; an unknown token stays.
pub open spec fn filled(template: Seq<char>, tokens: Seq<(Seq<char>, Seq<char>)>) -> Seq<char>
    decreases template.len(),
{
    proof {
        lemma_span(template.skip(1), crate::text::other_than('}'));
    }
    if template.len() == 0 {
        seq![]
    } else if template[0] != '{' {
        seq![template[0]] + filled(template.skip(1), tokens)
    } else {
        let rest = template.skip(1);
        let k = index_of(rest, '}');
        if k < rest.len() {
            token_text(tokens, rest.take(k as int)) + filled(rest.skip(k as int + 1), tokens)
        } else {
            template
        }
    }
}

fn find_token(tokens: &Vec<(&'static str, String)>, name: &str) -> (r: Option<String>)
    ensures
        r.deep_view() == token_value(tokens.deep_view(), name@),
{
    let ghost all = tokens.deep_view();
    let mut i: usize = 0;
    assert(all.skip(0) =~= all);
    while i < tokens.len()
        invariant
            i <= tokens.len(),
            all == tokens.deep_view(),
            token_value(all, name@) == token_value(all.skip(i as int), name@),
        decreases tokens.len() - i,
    {
        assert(all.skip(i as int)[0] == (tokens@[i as int].0@, tokens@[i as int].1@));
        assert(all.skip(i as int).skip(1) =~= all.skip(i + 1));
        if same(tokens[i].0, name) {
            return Some(tokens[i].1.clone());
        }
        i = i + 1;
    }
    None
}

/// A template with the tokens' values put in for `{token}`; an unknown token stays as it is
/// written.
pub fn substitute(template: &str, tokens: &Vec<(&'static str, String)>) -> (r: String)
    ensures
        r@ == filled(template@, tokens.deep_view()),
{
    let c = chars_of(template);
    let ghost all = tokens.deep_view();
    let ghost want = filled(template@, all);
    let mut out = String::new();
    let mut i: usize = 0;
    proof {
        assert(c@.skip(0) =~= c@);
        assert(out@ + want =~= want);
    }
    while i < c.len()
        invariant
            i <= c.len(),
            all == tokens.deep_view(),
            c@ == template@,
            want == filled(template@, all),
            out@ + filled(c@.skip(i as int), all) == want,
        decreases c.len() - i,
    {
        let ghost was = out@;
        let ghost now = c@.skip(i as int);
        let x = c[i];
        if x != '{' {
            out.push(x);
            i = i + 1;
            proof {
                assert(now.skip(1) =~= c@.skip(i as int));
                assert(out@ + filled(c@.skip(i as int), all) =~= was + filled(now, all));
            }
        } else {
            let rest = slice_subrange(c.as_slice(), i + 1, c.len());
            assert(rest@ =~= now.skip(1));
            let k = find_char(rest, '}');
            if k < rest.len() {
                let n = slice_subrange(rest, 0, k);
                assert(n@ =~= rest@.take(k as int));
                let name = string_of(n);
                match find_token(tokens, name.as_str()) {
                    Some(v) => {
                        out.append(v.as_str());
                    },
                    None => {
                        out.push('{');
                        out.append(name.as_str());
                        out.push('}');
                    },
                }
                i = i + k + 2;
                proof {
                    assert(out@ =~= was + token_text(all, name@));
                    assert(rest@.skip(k + 1) =~= c@.skip(i as int));
                    assert(out@ + filled(c@.skip(i as int), all) =~= was + filled(now, all));
                }
            } else {
                let tail = slice_subrange(c.as_slice(), i, c.len());
                assert(tail@ =~= now);
                out.append(string_of(tail).as_str());
                assert(out@ =~= was + filled(now, all));
                return out;
            }
        }
    }
    assert(out@ + filled(c@.skip(i as int), all) =~= out@);
    out
}

/// What stands for the choices in one `{a,b,c}`: the text once with each of them.
pub open spec fn choices(c: Seq<char>) -> Option<Seq<Seq<char>>> {
    let open = index_of(c, '{') as int;
    if open >= c.len() {
        None
    } else {
        let close = open + index_of(c.skip(open), '}');
        if close >= c.len() {
            None
        } else {
            let options = split(c.subrange(open + 1, close), ',');
            Some(
                Seq::new(
                    options.len(),
                    |i: int| c.take(open) + options[i] + c.skip(close + 1),
                ),
            )
        }
    }
}

/// The choices in the first `{a,b,c}` of a component, each put in its place; nothing where the
/// component has none.
pub fn expand_brace(component: &str) -> (r: Option<Vec<String>>)
    ensures
        r.deep_view() == choices(component@),
{
    let c = chars_of(component);
    let open = find_char(c.as_slice(), '{');
    if open >= c.len() {
        return None;
    }
    let from = slice_subrange(c.as_slice(), open, c.len());
    assert(from@ =~= c@.skip(open as int));
    let k = find_char(from, '}');
    if k >= from.len() {
        return None;
    }
    let close = open + k;
    assert(close > open) by {
        assert(from@[0] == '{');
        assert(c@[open as int] == '{') by {
            crate::text::lemma_span(c@, crate::text::other_than('{'));
        }
    }
    let prefix = string_of(slice_subrange(c.as_slice(), 0, open));
    let suffix = string_of(slice_subrange(c.as_slice(), close + 1, c.len()));
    let inner = slice_subrange(c.as_slice(), open + 1, close);
    let options = split_at_char(inner, ',');
    let ghost want = choices(component@)->0;
    proof {
        assert(prefix@ =~= c@.take(open as int));
        assert(suffix@ =~= c@.skip(close + 1));
        assert(options.deep_view().len() == options.len());
    }
    let mut out: Vec<String> = Vec::new();
    let mut i: usize = 0;
    while i < options.len()
        invariant
            i <= options.len(),
            want.len() == options.len(),
            forall|j: int|
                0 <= j < want.len() ==> #[trigger] want[j] == prefix@ + options.deep_view()[j]
                    + suffix@,
            out.deep_view() =~= want.take(i as int),
        decreases options.len() - i,
    {
        assert(options.deep_view()[i as int] == options@[i as int]@);
        put_text(&mut out, cat3(prefix.as_str(), options[i].as_str(), suffix.as_str()));
        i = i + 1;
    }
    assert(want.take(i as int) =~= want);
    Some(out)
}

/// Whether the pieces stand in `s` one behind the other, with anything before each, the last of
/// them at the end.
pub open spec fn pieces_in(pieces: Seq<Seq<char>>, s: Seq<char>) -> bool
    decreases pieces.len(),
{
    if pieces.len() == 0 {
        true
    } else if pieces.len() == 1 {
        ends(s, pieces[0])
    } else {
        exists|i: int| #[trigger]
            occurs_at(s, pieces[0], i) && pieces_in(
                pieces.skip(1),
                s.skip(i + pieces[0].len()),
            )
    }
}

/// Whether a name has the form of a pattern, in which each `*` stands for any characters: the
/// pieces between the stars stand in the name in their order, the first at its front, the last at
/// its end, and none over another.
pub open spec fn matches_glob(pattern: Seq<char>, name: Seq<char>) -> bool {
    let pieces = split(pattern, '*');
    if pieces.len() == 1 {
        name == pieces[0]
    } else {
        starts(name, pieces[0]) && pieces_in(pieces.skip(1), name.skip(pieces[0].len() as int))
    }
}

/// What can stand in the end of a text can stand in a longer end of it.
proof fn lemma_pieces_in_longer(pieces: Seq<Seq<char>>, s: Seq<char>, i: int, j: int)
    requires
        0 <= i <= j <= s.len(),
        pieces_in(pieces, s.skip(j)),
    ensures
        pieces_in(pieces, s.skip(i)),
{
    if pieces.len() == 1 {
        let p = pieces[0];
        assert(s.skip(i).skip(s.skip(i).len() - p.len()) =~= s.skip(j).skip(
            s.skip(j).len() - p.len(),
        ));
    } else if pieces.len() > 1 {
        let p = pieces[0];
        let k = choose|k: int| #[trigger]
            occurs_at(s.skip(j), p, k) && pieces_in(pieces.skip(1), s.skip(j).skip(k + p.len()));
        assert(s.skip(i).subrange(k + j - i, k + j - i + p.len()) =~= s.skip(j).subrange(
            k,
            k + p.len(),
        ));
        assert(occurs_at(s.skip(i), p, k + j - i));
        assert(s.skip(i).skip(k + j - i + p.len()) =~= s.skip(j).skip(k + p.len()));
    }
}

/// It is enough to look behind the first place where the first piece stands.
proof fn lemma_first_place(pieces: Seq<Seq<char>>, s: Seq<char>)
    requires
        pieces.len() > 1,
    ensures
        pieces_in(pieces, s) <==> find_sub(s, pieces[0]) is Some && pieces_in(
            pieces.skip(1),
            s.skip(find_sub(s, pieces[0])->0 + pieces[0].len()),
        ),
{
    let p = pieces[0];
    lemma_find_from(s, p, 0);
    if pieces_in(pieces, s) {
        let k = choose|k: int| #[trigger]
            occurs_at(s, p, k) && pieces_in(pieces.skip(1), s.skip(k + p.len()));
        let f = find_sub(s, p)->0;
        assert(f <= k);
        lemma_pieces_in_longer(pieces.skip(1), s, f + p.len(), k + p.len());
    }
}

/// Whether a name has the form of a pattern, in which each `*` stands for any characters.
pub fn glob_match(pattern: &str, name: &str) -> (r: bool)
    ensures
        r == matches_glob(pattern@, name@),
{
    let p = chars_of(pattern);
    let pieces = split_at_char(p.as_slice(), '*');
    let ghost all = split(pattern@, '*');
    proof {
        assert(pieces.deep_view().len() == pieces.len());
        assert(all.len() > 0);
        assert(all[0] == pieces@[0]@);
    }
    let c = chars_of(name);
    if pieces.len() == 1 {
        return same(name, pieces[0].as_str());
    }
    let mut rest: &[char] = match strip_prefix(c.as_slice(), pieces[0].as_str()) {
        Some(r) => r,
        None => {
            return false;
        },
    };
    let mut i: usize = 1;
    while i < pieces.len() - 1
        invariant
            1 <= i <= pieces.len() - 1,
            all == pieces.deep_view(),
            pieces_in(all.skip(i as int), rest@) == matches_glob(pattern@, name@),
        decreases pieces.len() - i,
    {
        let ghost now = all.skip(i as int);
        let ghost s = rest@;
        proof {
            assert(now[0] == pieces@[i as int]@);
            assert(now.skip(1) =~= all.skip(i + 1));
            lemma_first_place(now, s);
        }
        match find_text(rest, pieces[i].as_str(), 0) {
            Some(k) => {
                let piece = chars_of(pieces[i].as_str());
                let n = rest.len();
                assert(occurs_at(s, piece@, k as int));
                assert(k + piece@.len() <= n);
                rest = slice_subrange(rest, k + piece.len(), n);
                assert(rest@ =~= s.skip(k + piece@.len()));
            },
            None => {
                return false;
            },
        }
        i = i + 1;
    }
    proof {
        assert(all.skip(i as int).len() == 1);
        assert(all.skip(i as int)[0] == pieces@[i as int]@);
    }
    ends_with(rest, pieces[i].as_str())
}

/// Where the paths of a template begin.
pub open spec fn glob_base(template: Seq<char>, home: Seq<Seq<char>>) -> Seq<Seq<char>> {
    if !starts(template, "~/"@) && template != "~"@ && starts(template, "/"@) {
        path_of("/"@)
    } else {
        home
    }
}

/// What of a template counts from there.
pub open spec fn glob_rest(template: Seq<char>) -> Seq<char> {
    if starts(template, "~/"@) {
        template.skip("~/"@.len() as int)
    } else if template == "~"@ {
        seq![]
    } else if starts(template, "/"@) {
        template.skip("/"@.len() as int)
    } else {
        template
    }
}

/// The paths of these names in a directory.
pub open spec fn named_in(names: Seq<Seq<char>>) -> spec_fn(Seq<Seq<char>>) -> Seq<Seq<Seq<char>>> {
    |dir: Seq<Seq<char>>| Seq::new(names.len(), |i: int| child(dir, names[i]))
}

/// The path of an entry whose name has the form of the pattern.
pub open spec fn entry_matching(pattern: Seq<char>, dir: Seq<Seq<char>>) -> spec_fn(
    (Seq<char>, NodeKind),
) -> Option<Seq<Seq<char>>> {
    |e: (Seq<char>, NodeKind)|
        if matches_glob(pattern, e.0) {
            Some(child(dir, e.0))
        } else {
            None
        }
}

/// The paths of the entries of a directory whose names have the form of the pattern.
pub open spec fn matching_in(disk: DiskView, pattern: Seq<char>) -> spec_fn(Seq<Seq<char>>) -> Seq<
    Seq<Seq<char>>,
> {
    |dir: Seq<Seq<char>>|
        match disk.list(dir) {
            Some(entries) => entries.filter_map(entry_matching(pattern, dir)),
            None => seq![],
        }
}

/// The paths that a further component of a template leads to.
pub open spec fn glob_step(
    disk: DiskView,
    paths: Seq<Seq<Seq<char>>>,
    component: Seq<char>,
) -> Seq<Seq<Seq<char>>> {
    if component.len() == 0 {
        paths
    } else if choices(component) is Some {
        flat(paths, named_in(choices(component)->0))
    } else if has_char(component, '*') {
        flat(paths, matching_in(disk, component))
    } else {
        flat(paths, named_in(seq![component]))
    }
}

/// The paths that further components lead to.
pub open spec fn glob_steps(
    disk: DiskView,
    paths: Seq<Seq<Seq<char>>>,
    components: Seq<Seq<char>>,
) -> Seq<Seq<Seq<char>>>
    decreases components.len(),
{
    if components.len() == 0 {
        paths
    } else {
        glob_step(disk, glob_steps(disk, paths, components.drop_last()), components.last())
    }
}

/// The paths that a template stands for.
pub open spec fn globbed(disk: DiskView, template: Seq<char>, home: Seq<Seq<char>>) -> Seq<
    Seq<Seq<char>>,
> {
    glob_steps(disk, seq![glob_base(template, home)], split(glob_rest(template), '/'))
}

fn join_names(paths: &Vec<FilePath>, names: &Vec<String>) -> (r: Vec<FilePath>)
    ensures
        r.deep_view() == flat(paths.deep_view(), named_in(names.deep_view())),
{
    let ghost all = paths.deep_view();
    let ghost ns = names.deep_view();
    let ghost f = named_in(ns);
    let mut out: Vec<FilePath> = Vec::new();
    let mut i: usize = 0;
    proof {
        lemma_flat_start(all, f);
        assert(out.deep_view() =~= flat(all.take(0), f));
    }
    while i < paths.len()
        invariant
            i <= paths.len(),
            all == paths.deep_view(),
            ns == names.deep_view(),
            f == named_in(ns),
            out.deep_view() == flat(all.take(i as int), f),
        decreases paths.len() - i,
    {
        proof {
            assert(all[i as int] == paths@[i as int]@);
            lemma_flat_step(all, f, i as int);
        }
        let ghost was = out.deep_view();
        let ghost want = f(all[i as int]);
        let mut k: usize = 0;
        assert(out.deep_view() =~= was + want.take(0));
        while k < names.len()
            invariant
                i < paths.len(),
                k <= names.len(),
                ns == names.deep_view(),
                all == paths.deep_view(),
                f == named_in(ns),
                want == f(all[i as int]),
                out.deep_view() == was + want.take(k as int),
            decreases names.len() - k,
        {
            assert(ns[k as int] == names@[k as int]@);
            assert(all[i as int] == paths@[i as int]@);
            put_path(&mut out, paths[i].child(names[k].as_str()));
            assert(out.deep_view() =~= was + want.take(k + 1));
            k = k + 1;
        }
        assert(want.take(k as int) =~= want);
        i = i + 1;
    }
    assert(all.take(i as int) =~= all);
    out
}

fn matching_entries(disk: &mut Disk, dir: &FilePath, pattern: &str) -> (r: Vec<FilePath>)
    requires
        old(disk).wf(),
    ensures
        final(disk).asked(*old(disk)),
        final(disk).holds() ==> r.deep_view() == matching_in(old(disk)@, pattern@)(dir@),
{
    let mut out: Vec<FilePath> = Vec::new();
    match disk.list(dir) {
        Some(entries) => {
            let ghost all = entries.deep_view();
            let ghost pick = entry_matching(pattern@, dir@);
            let mut i: usize = 0;
            proof {
                lemma_filter_map_start(all, pick);
                assert(out.deep_view() =~= all.take(0).filter_map(pick));
            }
            while i < entries.len()
                invariant
                    i <= entries.len(),
                    all == entries.deep_view(),
                    pick == entry_matching(pattern@, dir@),
                    disk.holds() ==> out.deep_view() == all.take(i as int).filter_map(pick),
                decreases entries.len() - i,
            {
                proof {
                    assert(all[i as int] == entries@[i as int].deep_view());
                    all.lemma_filter_map_take_succ(pick, i as int);
                }
                if glob_match(pattern, entries[i].name.as_str()) {
                    put_path(&mut out, dir.child(entries[i].name.as_str()));
                }
                assert(disk.holds() ==> out.deep_view() =~= all.take(i + 1).filter_map(pick));
                i = i + 1;
            }
            assert(all.take(i as int) =~= all);
            out
        },
        None => {
            assert(out.deep_view() =~= seq![]);
            out
        },
    }
}

fn expand_stars(disk: &mut Disk, paths: &Vec<FilePath>, pattern: &str) -> (r: Vec<FilePath>)
    requires
        old(disk).wf(),
    ensures
        final(disk).asked(*old(disk)),
        final(disk).holds()
            ==> r.deep_view() == flat(paths.deep_view(), matching_in(old(disk)@, pattern@)),
{
    let ghost all = paths.deep_view();
    let ghost f = matching_in(disk@, pattern@);
    let mut out: Vec<FilePath> = Vec::new();
    let mut i: usize = 0;
    proof {
        lemma_flat_start(all, f);
        assert(out.deep_view() =~= flat(all.take(0), f));
    }
    while i < paths.len()
        invariant
            i <= paths.len(),
            all == paths.deep_view(),
            f == matching_in(old(disk)@, pattern@),
            disk.asked(*old(disk)),
            disk.holds() ==> out.deep_view() == flat(all.take(i as int), f),
        decreases paths.len() - i,
    {
        proof {
            assert(all[i as int] == paths@[i as int]@);
            lemma_flat_step(all, f, i as int);
        }
        let more = matching_entries(disk, &paths[i], pattern);
        put_paths(&mut out, more);
        i = i + 1;
    }
    assert(all.take(i as int) =~= all);
    out
}

/// The paths that a template stands for. A `~` is the home directory, a component with `{a,b,c}`
/// stands for each of its choices, and one with a `*` for the entries of the directory whose names
/// have that form. What none of these leads to need not exist.
pub fn glob_expand(template: &str, home: &FilePath, disk: &mut Disk) -> (r: Vec<FilePath>)
    requires
        old(disk).wf(),
    ensures
        final(disk).asked(*old(disk)),
        final(disk).holds() ==> r.deep_view() == globbed(old(disk)@, template@, home@),
{
    let ghost facts = disk@;
    let c = chars_of(template);
    let mut paths: Vec<FilePath> = Vec::new();
    let empty: &[char] = &[];
    let rest: &[char];
    if let Some(r) = strip_prefix(c.as_slice(), "~/") {
        paths.push(home.copy());
        rest = r;
    } else if same(template, "~") {
        paths.push(home.copy());
        assert(empty@ =~= seq![]);
        rest = empty;
    } else if let Some(r) = strip_prefix(c.as_slice(), "/") {
        paths.push(FilePath::from_text("/"));
        rest = r;
    } else {
        paths.push(home.copy());
        rest = c.as_slice();
    }
    let ghost start = seq![glob_base(template@, home@)];
    assert(paths.deep_view() =~= start);
    assert(rest@ == glob_rest(template@));
    let components = split_at_char(rest, '/');
    let ghost all = components.deep_view();
    let mut i: usize = 0;
    assert(paths.deep_view() =~= glob_steps(facts, start, all.take(0)));
    while i < components.len()
        invariant
            i <= components.len(),
            all == components.deep_view(),
            facts == old(disk)@,
            disk.asked(*old(disk)),
            disk.holds() ==> paths.deep_view() == glob_steps(facts, start, all.take(i as int)),
        decreases components.len() - i,
    {
        proof {
            assert(all.take(i + 1).drop_last() =~= all.take(i as int));
            assert(all.take(i + 1).last() == components@[i as int]@);
        }
        let comp = chars_of(components[i].as_str());
        if comp.len() > 0 {
            match expand_brace(components[i].as_str()) {
                Some(options) => {
                    paths = join_names(&paths, &options);
                },
                None => {
                    if holds_char(comp.as_slice(), '*') {
                        paths = expand_stars(disk, &paths, components[i].as_str());
                    } else {
                        let mut one: Vec<String> = Vec::new();
                        one.push(components[i].clone());
                        assert(one.deep_view() =~= seq![components@[i as int]@]);
                        paths = join_names(&paths, &one);
                    }
                },
            }
        }
        i = i + 1;
    }
    assert(all.take(i as int) =~= all);
    paths
}

/// The path of an entry that is a directory, or of one that is none.
pub open spec fn entry_path(dir: Seq<Seq<char>>, dirs: bool) -> spec_fn(
    (Seq<char>, NodeKind),
) -> Option<Seq<Seq<char>>> {
    |e: (Seq<char>, NodeKind)|
        if (e.1 == NodeKind::Dir) == dirs {
            Some(child(dir, e.0))
        } else {
            None
        }
}

/// The paths of the entries that are directories, or of those that are none.
pub open spec fn entry_paths(disk: DiskView, dir: Seq<Seq<char>>, dirs: bool) -> Seq<
    Seq<Seq<char>>,
> {
    match disk.list(dir) {
        Some(entries) => entries.filter_map(entry_path(dir, dirs)),
        None => seq![],
    }
}

/// The files below the directories that wait: the directory that came last is taken first, its
/// files are listed, and its directories wait behind the others. At most `fuel` directories are
/// looked into.
pub open spec fn files_below(disk: DiskView, waiting: Seq<Seq<Seq<char>>>, fuel: nat) -> Seq<
    Seq<Seq<char>>,
>
    decreases fuel,
{
    if waiting.len() == 0 || fuel == 0 {
        seq![]
    } else {
        let dir = waiting.last();
        entry_paths(disk, dir, false) + files_below(
            disk,
            waiting.drop_last() + entry_paths(disk, dir, true),
            (fuel - 1) as nat,
        )
    }
}

/// At most the first `cap` of the paths.
pub open spec fn first_of(s: Seq<Seq<Seq<char>>>, cap: nat) -> Seq<Seq<Seq<char>>> {
    if s.len() <= cap {
        s
    } else {
        s.take(cap as int)
    }
}

pub(crate) fn list_paths(disk: &mut Disk, dir: &FilePath) -> (r: (Vec<FilePath>, Vec<FilePath>))
    requires
        old(disk).wf(),
    ensures
        final(disk).asked(*old(disk)),
        final(disk).holds() ==> r.0.deep_view() == entry_paths(old(disk)@, dir@, false),
        final(disk).holds() ==> r.1.deep_view() == entry_paths(old(disk)@, dir@, true),
{
    let mut files: Vec<FilePath> = Vec::new();
    let mut dirs: Vec<FilePath> = Vec::new();
    match disk.list(dir) {
        Some(entries) => {
            let ghost all = entries.deep_view();
            let ghost f = entry_path(dir@, false);
            let ghost d = entry_path(dir@, true);
            let mut i: usize = 0;
            proof {
                lemma_filter_map_start(all, f);
                lemma_filter_map_start(all, d);
                assert(files.deep_view() =~= all.take(0).filter_map(f));
                assert(dirs.deep_view() =~= all.take(0).filter_map(d));
            }
            while i < entries.len()
                invariant
                    i <= entries.len(),
                    all == entries.deep_view(),
                    f == entry_path(dir@, false),
                    d == entry_path(dir@, true),
                    disk.holds() ==> files.deep_view() == all.take(i as int).filter_map(f),
                    disk.holds() ==> dirs.deep_view() == all.take(i as int).filter_map(d),
                decreases entries.len() - i,
            {
                proof {
                    assert(all[i as int] == entries@[i as int].deep_view());
                    all.lemma_filter_map_take_succ(f, i as int);
                    all.lemma_filter_map_take_succ(d, i as int);
                }
                let p = dir.child(entries[i].name.as_str());
                if entries[i].kind == NodeKind::Dir {
                    put_path(&mut dirs, p);
                } else {
                    put_path(&mut files, p);
                }
                assert(disk.holds() ==> files.deep_view() =~= all.take(i + 1).filter_map(f));
                assert(disk.holds() ==> dirs.deep_view() =~= all.take(i + 1).filter_map(d));
                i = i + 1;
            }
            assert(all.take(i as int) =~= all);
        },
        None => {
            assert(files.deep_view() =~= seq![]);
            assert(dirs.deep_view() =~= seq![]);
        },
    }
    (files, dirs)
}

/// The first `cap` files below the directories `roots`, in the order in which a walk that takes the
/// last directory first comes to them.
pub fn walk_files(disk: &mut Disk, roots: Vec<FilePath>, cap: usize) -> (r: Vec<FilePath>)
    requires
        old(disk).wf(),
    ensures
        final(disk).asked(*old(disk)),
        final(disk).holds() ==> r.deep_view() == first_of(
            files_below(old(disk)@, roots.deep_view(), u64::MAX as nat),
            cap as nat,
        ),
{
    let ghost facts = disk@;
    let ghost want = files_below(facts, roots.deep_view(), u64::MAX as nat);
    let mut stack = roots;
    let mut out: Vec<FilePath> = Vec::new();
    let mut fuel: u64 = u64::MAX;
    assert(out.deep_view() + want =~= want);
    while fuel > 0 && out.len() < cap
        invariant
            facts == old(disk)@,
            disk.asked(*old(disk)),
            disk.holds() ==> want == files_below(facts, roots.deep_view(), u64::MAX as nat),
            disk.holds()
                ==> out.deep_view() + files_below(facts, stack.deep_view(), fuel as nat) == want,
        decreases fuel,
    {
        let ghost was = out.deep_view();
        let ghost waiting = stack.deep_view();
        let dir = match stack.pop() {
            Some(d) => d,
            None => {
                proof {
                    assert(waiting.len() == 0);
                    assert(was + files_below(facts, waiting, fuel as nat) =~= was);
                }
                assert(out.deep_view().len() == out.len());
                return out;
            },
        };
        proof {
            assert(waiting.last() == dir@);
            assert(waiting.drop_last() =~= stack.deep_view());
        }
        let (files, dirs) = list_paths(disk, &dir);
        let ghost fs = files.deep_view();
        put_paths(&mut stack, dirs);
        put_paths(&mut out, files);
        fuel = fuel - 1;
        proof {
            let rest = files_below(facts, stack.deep_view(), fuel as nat);
            assert(out.deep_view() + rest =~= was + (fs + rest));
        }
    }
    let ghost got = out.deep_view();
    let ghost rest = files_below(facts, stack.deep_view(), fuel as nat);
    assert(got.len() == out.len());
    if out.len() > cap {
        out.truncate(cap);
        assert(out.deep_view() =~= got.take(cap as int));
        assert(disk.holds() ==> want.take(cap as int) =~= got.take(cap as int));
    } else {
        proof {
            if out.len() == cap {
                assert(disk.holds() ==> want.take(cap as int) =~= got);
                if rest.len() == 0 {
                    assert(disk.holds() ==> want =~= got);
                }
            } else {
                assert(rest =~= seq![]);
                assert(disk.holds() ==> want =~= got);
            }
        }
    }
    out
}

} // verus!
