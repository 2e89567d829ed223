//! What holds of the lists that manifests and lock files are read into: a further entry in the file
//! is a further entry in the list.

use vstd::prelude::*;

use crate::doc::{field, list_of, signed_field, table_of, text_field, DocView};
use crate::fspath::{is_absolute, path_of, path_text};
use crate::seqs::{flat, lemma_filter_map_add, lemma_picked};
use crate::text::{
    after_last, ends, find_from, index_of, is_digit, is_space, just, lemma_span, lemma_span_is,
    lines, lower, occurs_at, other_than, rfind_from, spaces, split, starts, trim, trim_end_where,
    trim_start, trim_where, without_prefix, words,
};
use crate::text_laws::{
    blank, free_of, law_a_further_line, law_first_piece, law_first_word,
    law_trim_takes_off_what_is_around, lemma_first_place, lemma_no_place, lemma_trim_tight, tight,
    whole_lines,
};

use super::parsers::{
    at_spec, bare_or_quoted, base64_bytes, base64_filler, before_char, behind_equals, brew_line,
    bun_package, bun_packages, closing_quote, cwd_in, directive, dotted, encoded_dir, escaped_char,
    git_key, go_line, go_modules, hex_char, hex_pair, home_expanded, in_shell_word, is_number,
    lock_line, lock_packages, lock_start, locked_name, locked_package, locked_packages, node_pin,
    npm_spec, off_suffix, packed, pin_of, pins_in, plain_json, registry_key, repo_basename, sextet,
    shard, shell_default, shell_word, target_dir, target_dirs, unquoted, up_to, value_in,
    word_quote, yarn_line, BrewEntryKind, KeyView, LockPackageView, LockState,
};

verus! {

/// Whether a text can stand between quotation marks on one line.
pub open spec fn quotable(s: Seq<char>) -> bool {
    free_of(s, '"') && free_of(s, '\n')
}

/// The line `key = "value"`.
pub open spec fn quoted_line(key: Seq<char>, value: Seq<char>) -> Seq<char> {
    key + " = \""@ + value + "\""@
}

/// A value in quotation marks behind a key is the value of that key, and of no key that the line does
/// not start with.
pub proof fn law_quoted_value(key: Seq<char>, value: Seq<char>)
    requires
        tight(key),
        key.len() > 0,
        free_of(value, '"'),
    ensures
        value_in(quoted_line(key, value), key) == Some(value),
        trim(quoted_line(key, value)) == quoted_line(key, value),
{
    reveal_strlit(" = \"");
    reveal_strlit("\"");
    reveal_strlit("=");
    let line = quoted_line(key, value);
    assert(line[0] == key[0]);
    assert(line.last() == '"');
    lemma_trim_tight(line);
    let rest = " = \""@ + value + "\""@;
    assert(line.take(key.len() as int) =~= key);
    assert(line.skip(key.len() as int) =~= rest);
    assert(without_prefix(line, key) == Some(rest));
    assert(rest[0] == ' ');
    let eq = seq!['=', ' ', '"'] + value + seq!['"'];
    law_trim_takes_off_what_is_around(seq![' '], eq, seq![]);
    assert(seq![' '] + eq + seq![] =~= rest);
    assert(eq + seq![] =~= eq);
    assert(trim_start(rest) == eq);
    let quoted = seq!['"'] + value + seq!['"'];
    assert(eq.take(1) =~= "="@);
    assert(eq.skip(1) =~= seq![' '] + quoted);
    assert(behind_equals(eq) == seq![' '] + quoted);
    law_trim_takes_off_what_is_around(seq![' '], quoted, seq![]);
    assert(seq![' '] + quoted + seq![] =~= seq![' '] + quoted);
    assert(trim(behind_equals(eq)) == quoted);
    assert(quoted.take(1) =~= "\""@);
    let inner = quoted.skip(1);
    assert(inner =~= value + seq!['"'] + seq![]);
    lemma_first_place(value, seq![], '"');
    assert(bare_or_quoted(quoted) == before_char(inner, '"'));
    assert(before_char(inner, '"') == Some(value));
}

/// A line gives no value for a key whose first letter is another.
pub proof fn law_other_key(line: Seq<char>, key: Seq<char>)
    requires
        line.len() > 0,
        key.len() > 0,
        !is_space(line[0]),
        line[0] != key[0],
    ensures
        value_in(line, key) is None,
{
    assert forall|j: int| 0 <= j < 0 implies crate::text::spaces()(#[trigger] line[j]) by {}
    lemma_span_is(line, crate::text::spaces(), 0);
    assert(line.skip(0) =~= line);
    if starts(line, key) {
        assert(line.take(key.len() as int)[0] == line[0]);
    }
}

/// The text of a block of a `Cargo.lock`.
pub open spec fn lock_block(p: LockPackageView) -> Seq<char> {
    let head = "[[package]]"@ + "\n"@ + quoted_line("name"@, p.name) + "\n"@ + quoted_line(
        "version"@,
        p.version,
    ) + "\n"@;
    match p.source {
        Some(source) => head + quoted_line("source"@, source) + "\n"@,
        None => head,
    }
}

/// Whether the values of a package can be written into a block.
pub open spec fn writable(p: LockPackageView) -> bool {
    quotable(p.name) && quotable(p.version) && (p.source is Some ==> quotable(p.source->0))
}

/// Blocks one behind the other.
pub open spec fn lock_text(ps: Seq<LockPackageView>) -> Seq<char>
    decreases ps.len(),
{
    if ps.len() == 0 {
        seq![]
    } else {
        lock_text(ps.drop_last()) + lock_block(ps.last())
    }
}

proof fn lemma_header_closes(l: Seq<Seq<char>>, m: Seq<Seq<char>>, s: LockState)
    requires
        m.len() > 0,
        trim(m[0]) == "[[package]]"@,
    ensures
        lock_packages(l + m, s) == lock_packages(l, s) + lock_packages(
            m.skip(1),
            lock_start(true),
        ),
    decreases l.len(),
{
    if l.len() == 0 {
        assert(l + m =~= m);
        assert(lock_packages(l, s) =~= s.package());
    } else {
        let t = trim(l[0]);
        assert((l + m)[0] == l[0]);
        assert((l + m).skip(1) =~= l.skip(1) + m);
        if t == "[[package]]"@ {
            lemma_header_closes(l.skip(1), m, lock_start(true));
            assert(lock_packages(l + m, s) =~= lock_packages(l, s) + lock_packages(
                m.skip(1),
                lock_start(true),
            ));
        } else if !s.open {
            lemma_header_closes(l.skip(1), m, s);
        } else {
            lemma_header_closes(l.skip(1), m, lock_line(s, t));
        }
    }
}

proof fn lemma_block_lines(text: Seq<char>, p: LockPackageView)
    requires
        whole_lines(text),
        writable(p),
    ensures
        whole_lines(text + lock_block(p)),
        lines(text + lock_block(p)) == lines(text) + (seq![
            "[[package]]"@,
            quoted_line("name"@, p.name),
            quoted_line("version"@, p.version),
        ] + (if p.source is Some {
            seq![quoted_line("source"@, p.source->0)]
        } else {
            seq![]
        })),
{
    reveal_strlit("[[package]]");
    reveal_strlit("name");
    reveal_strlit("version");
    reveal_strlit("source");
    reveal_strlit("\n");
    reveal_strlit(" = \"");
    reveal_strlit("\"");
    let nl = seq!['\n'];
    assert("\n"@ =~= nl);
    let l0 = "[[package]]"@;
    let l1 = quoted_line("name"@, p.name);
    let l2 = quoted_line("version"@, p.version);
    assert(free_of(l0, '\n'));
    assert(free_of(l1, '\n'));
    assert(free_of(l2, '\n'));
    let t0 = text + l0 + nl;
    let t1 = t0 + l1 + nl;
    let t2 = t1 + l2 + nl;
    law_a_further_line(text, l0);
    law_a_further_line(t0, l1);
    law_a_further_line(t1, l2);
    if p.source is Some {
        let l3 = quoted_line("source"@, p.source->0);
        assert(free_of(l3, '\n'));
        law_a_further_line(t2, l3);
        let t3 = t2 + l3 + nl;
        assert(text + lock_block(p) =~= t3);
        assert(lines(t3) =~= lines(text) + (seq![l0, l1, l2] + seq![l3]));
    } else {
        assert(text + lock_block(p) =~= t2);
        assert(lines(t2) =~= lines(text) + (seq![l0, l1, l2] + seq![]));
    }
}

/// A block that is written behind a `Cargo.lock` is one package more, behind all others, the last
/// block of the file included.
#[verifier::rlimit(40)]
pub proof fn law_a_further_block_is_a_further_package(text: Seq<char>, p: LockPackageView)
    requires
        whole_lines(text),
        writable(p),
    ensures
        lock_packages(lines(text + lock_block(p)), lock_start(false)) == lock_packages(
            lines(text),
            lock_start(false),
        ).push(p),
{
    lemma_block_lines(text, p);
    reveal_strlit("[[package]]");
    reveal_strlit("name");
    reveal_strlit("version");
    reveal_strlit("source");
    reveal_strlit(" = \"");
    reveal_strlit("\"");
    let l0 = "[[package]]"@;
    let l1 = quoted_line("name"@, p.name);
    let l2 = quoted_line("version"@, p.version);
    let tail: Seq<Seq<char>> = if p.source is Some {
        seq![quoted_line("source"@, p.source->0)]
    } else {
        seq![]
    };
    let m = seq![l0, l1, l2] + tail;
    lemma_trim_tight(l0);
    lemma_header_closes(lines(text), m, lock_start(false));
    law_quoted_value("name"@, p.name);
    law_quoted_value("version"@, p.version);
    assert(l1[0] == 'n' && l2[0] == 'v');
    law_other_key(l2, "name"@);
    let s0 = lock_start(true);
    let s1 = LockState { name: Some(p.name), ..s0 };
    let s2 = LockState { version: Some(p.version), ..s1 };
    let a = m.skip(1);
    assert(l0[0] == '[');
    assert(a[0] == l1);
    assert(l1 != l0) by {
        if l1 == l0 {
            assert(l1[0] == l0[0]);
        }
    }
    assert(lock_packages(a, s0) == lock_packages(a.skip(1), s1));
    let b = a.skip(1);
    assert(b[0] == l2);
    assert(l2 != l0) by {
        if l2 == l0 {
            assert(l2[0] == l0[0]);
        }
    }
    assert(lock_packages(b, s1) == lock_packages(b.skip(1), s2));
    let c = b.skip(1);
    assert(c =~= tail);
    if p.source is Some {
        let l3 = quoted_line("source"@, p.source->0);
        law_quoted_value("source"@, p.source->0);
        assert(l3[0] == 's');
        law_other_key(l3, "name"@);
        law_other_key(l3, "version"@);
        assert(l3 != l0) by {
            if l3 == l0 {
                assert(l3[0] == l0[0]);
            }
        }
        let s3 = LockState { source: p.source, ..s2 };
        assert(c[0] == l3);
        assert(lock_packages(c, s2) == lock_packages(c.skip(1), s3));
        assert(c.skip(1).len() == 0);
        assert(s3.package() =~= seq![p]);
    } else {
        assert(s2.package() =~= seq![p]);
    }
    assert(lock_packages(lines(text + lock_block(p)), lock_start(false)) =~= lock_packages(
        lines(text),
        lock_start(false),
    ).push(p));
}

/// A `Cargo.lock` that packages are written into is read as those packages, all of them and in order.
pub proof fn law_written_packages_are_read(ps: Seq<LockPackageView>)
    requires
        forall|i: int| 0 <= i < ps.len() ==> writable(#[trigger] ps[i]),
    ensures
        lock_packages(lines(lock_text(ps)), lock_start(false)) == ps,
        whole_lines(lock_text(ps)),
    decreases ps.len(),
{
    if ps.len() == 0 {
        assert(lines(seq![]) =~= seq![]);
        assert(lock_packages(seq![], lock_start(false)) =~= ps);
    } else {
        let front = ps.drop_last();
        assert forall|i: int| 0 <= i < front.len() implies writable(#[trigger] front[i]) by {
            assert(front[i] == ps[i]);
        }
        law_written_packages_are_read(front);
        assert(writable(ps[ps.len() - 1]));
        law_a_further_block_is_a_further_package(lock_text(front), ps.last());
        lemma_block_lines(lock_text(front), ps.last());
        assert(front.push(ps.last()) =~= ps);
    }
}

/// A further block with a registry's source is one key more, of just that name and version; one whose
/// source is a repository is a key with the repository's name; one without a source is none.
pub proof fn law_a_further_block_is_a_further_key(text: Seq<char>, p: LockPackageView)
    requires
        whole_lines(text),
        writable(p),
    ensures
        ({
            let before = lock_packages(lines(text), lock_start(false));
            let after = lock_packages(lines(text + lock_block(p)), lock_start(false));
            let from_git = p.source is Some && starts(p.source->0, "git+"@);
            &&& after.filter_map(registry_key()) == (if p.source is Some && p.source->0.len() > 0
                && !from_git {
                before.filter_map(registry_key()).push(
                    KeyView { name: p.name, version: p.version, extra: None },
                )
            } else {
                before.filter_map(registry_key())
            })
            &&& !from_git ==> after.filter_map(git_key()) == before.filter_map(git_key())
        }),
{
    law_a_further_block_is_a_further_package(text, p);
    let before = lock_packages(lines(text), lock_start(false));
    assert(before.push(p) =~= before + seq![p]);
    lemma_filter_map_add(before, seq![p], registry_key());
    lemma_filter_map_add(before, seq![p], git_key());
    reveal(Seq::filter_map);
    assert(seq![p].drop_last() =~= seq![]);
    let one = seq![p].filter_map(registry_key());
    let git = seq![p].filter_map(git_key());
    assert(Seq::<LockPackageView>::empty().filter_map(registry_key()) =~= seq![]);
    assert(Seq::<LockPackageView>::empty().filter_map(git_key()) =~= seq![]);
    if p.source is Some && p.source->0.len() > 0 && !starts(p.source->0, "git+"@) {
        assert(one =~= seq![KeyView { name: p.name, version: p.version, extra: None }]);
        assert(before.filter_map(registry_key()) + one =~= before.filter_map(registry_key()).push(
            KeyView { name: p.name, version: p.version, extra: None },
        ));
    } else {
        assert(one =~= seq![]);
        assert(before.filter_map(registry_key()) + one =~= before.filter_map(registry_key()));
    }
    if !(p.source is Some && starts(p.source->0, "git+"@)) {
        assert(git =~= seq![]);
        assert(before.filter_map(git_key()) + git =~= before.filter_map(git_key()));
    }
}

/// Whether a text is one word.
pub open spec fn one_word(s: Seq<char>) -> bool {
    s.len() > 0 && forall|i: int| 0 <= i < s.len() ==> !is_space(#[trigger] s[i])
}

proof fn lemma_word_has_no_line(s: Seq<char>)
    requires
        one_word(s),
    ensures
        free_of(s, '\n'),
        tight(s),
{
}

proof fn lemma_two_words(a: Seq<char>, b: Seq<char>, rest: Seq<char>)
    requires
        one_word(a),
        one_word(b),
        rest.len() > 0 ==> is_space(rest[0]),
    ensures
        words(a + seq![' '] + b + rest).len() >= 2,
        words(a + seq![' '] + b + rest)[0] == a,
        words(a + seq![' '] + b + rest)[1] == b,
{
    let s = a + seq![' '] + b + rest;
    let t = seq![' '] + b + rest;
    law_first_word(seq![], a, t);
    assert(seq![] + a + t =~= s);
    law_first_word(seq![' '], b, rest);
}

/// A line `module version hash` that is written behind a `go.sum` names one module more, unless it is
/// named already; the line of the module's `go.mod` names the module itself.
pub proof fn law_a_further_module(
    text: Seq<char>,
    module: Seq<char>,
    version: Seq<char>,
    hash: Seq<char>,
)
    requires
        whole_lines(text),
        one_word(module),
        one_word(version),
        one_word(hash),
        !ends(version, "/go.mod"@),
    ensures
        ({
            let k = KeyView { name: module, version, extra: None };
            let before = go_modules(lines(text));
            let after = if before.contains(k) {
                before
            } else {
                before.push(k)
            };
            &&& go_modules(
                lines(text + (module + seq![' '] + version + seq![' '] + hash) + seq!['\n']),
            ) == after
            &&& go_modules(
                lines(
                    text + (module + seq![' '] + (version + "/go.mod"@) + seq![' '] + hash)
                        + seq!['\n'],
                ),
            ) == after
        }),
{
    reveal_strlit("/go.mod");
    let k = KeyView { name: module, version, extra: None };
    let l1 = module + seq![' '] + version + seq![' '] + hash;
    let long = version + "/go.mod"@;
    let l2 = module + seq![' '] + long + seq![' '] + hash;
    lemma_word_has_no_line(module);
    lemma_word_has_no_line(version);
    lemma_word_has_no_line(hash);
    assert(free_of(l1, '\n'));
    assert(one_word(long));
    assert(free_of(l2, '\n'));
    assert(l1.last() == hash.last() && l2.last() == hash.last());
    assert(hash.last() != '\r');
    law_a_further_line(text, l1);
    law_a_further_line(text, l2);
    lemma_two_words(module, version, seq![' '] + hash);
    assert(module + seq![' '] + version + (seq![' '] + hash) =~= l1);
    lemma_two_words(module, long, seq![' '] + hash);
    assert(module + seq![' '] + long + (seq![' '] + hash) =~= l2);
    assert(go_line(l1) == Some(k));
    assert(long.skip(long.len() - "/go.mod"@.len()) =~= "/go.mod"@);
    assert(long.take(long.len() - "/go.mod"@.len()) =~= version);
    assert(go_line(l2) == Some(k));
    let before = lines(text);
    assert(before.push(l1).drop_last() =~= before);
    assert(before.push(l2).drop_last() =~= before);
}

proof fn lemma_pushed<A, B>(s: Seq<A>, x: A, f: spec_fn(A) -> Option<B>)
    ensures
        s.push(x).filter_map(f) == (match f(x) {
            Some(y) => s.filter_map(f).push(y),
            None => s.filter_map(f),
        }),
{
    reveal(Seq::filter_map);
    assert(s.push(x).drop_last() =~= s);
    assert(s.push(x).last() == x);
}

proof fn lemma_directive(line: Seq<char>, keyword: Seq<char>, name: Seq<char>, rest: Seq<char>, q: char)
    requires
        q == '"' || q == '\'',
        free_of(name, q),
        line == keyword + seq![' '] + seq![q] + name + seq![q] + rest,
    ensures
        directive(line, keyword) == Some(name),
{
    reveal_strlit(" ");
    let a = seq![' '] + seq![q] + name + seq![q] + rest;
    let b = seq![q] + name + seq![q] + rest;
    assert(line.take(keyword.len() as int) =~= keyword);
    assert(line.skip(keyword.len() as int) =~= a);
    assert(a.take(1) =~= " "@);
    assert(a.skip(1) =~= b);
    assert(b[0] == q);
    assert forall|j: int| 0 <= j < 0 implies spaces()(#[trigger] b[j]) by {}
    lemma_span_is(b, spaces(), 0);
    assert(b.skip(0) =~= b);
    assert(trim_start(b) == b);
    lemma_first_place(name, rest, q);
    assert(b.skip(1) =~= name + seq![q] + rest);
}

/// A line of a Brewfile that asks for a formula or a cask is one entry more, whatever stands behind
/// the name.
pub proof fn law_a_further_brew_line(
    text: Seq<char>,
    cask: bool,
    name: Seq<char>,
    rest: Seq<char>,
)
    requires
        whole_lines(text),
        quotable(name),
        free_of(rest, '\n'),
        rest.len() == 0 || !is_space(rest.last()),
    ensures
        ({
            let line = (if cask {
                "cask"@
            } else {
                "brew"@
            }) + seq![' '] + seq!['"'] + name + seq!['"'] + rest;
            lines(text + line + seq!['\n']).filter_map(brew_line()) == lines(text).filter_map(
                brew_line(),
            ).push(
                (
                    if cask {
                        BrewEntryKind::Cask
                    } else {
                        BrewEntryKind::Formula
                    },
                    name,
                ),
            )
        }),
{
    reveal_strlit("cask");
    reveal_strlit("brew");
    let word = if cask {
        "cask"@
    } else {
        "brew"@
    };
    let line = word + seq![' '] + seq!['"'] + name + seq!['"'] + rest;
    assert(free_of(line, '\n'));
    assert(line[0] == word[0]);
    assert(line.last() == (if rest.len() == 0 {
        '"'
    } else {
        rest.last()
    }));
    assert(line.last() != '\r');
    law_a_further_line(text, line);
    lemma_trim_tight(line);
    lemma_directive(line, word, name, rest, '"');
    if cask {
        assert(directive(line, "brew"@) is None) by {
            if starts(line, "brew"@) {
                assert(line.take(4)[0] == line[0]);
            }
        }
    }
    lemma_pushed(lines(text), line, brew_line());
}

proof fn lemma_trim_quotes(s: Seq<char>)
    requires
        s.len() > 0,
        s[0] != '"',
        s.last() != '"',
    ensures
        trim_where(seq!['"'] + s + seq!['"'], just('"')) == s,
{
    let q = seq!['"'] + s + seq!['"'];
    assert(q[1] == s[0]);
    lemma_span_is(q, just('"'), 1);
    let t = q.skip(1);
    assert(t =~= s + seq!['"']);
    assert(t.last() == '"');
    assert(t.drop_last() =~= s);
    assert(trim_end_where(t, just('"')) == trim_end_where(s, just('"')));
    assert(trim_end_where(s, just('"')) == s);
}

proof fn lemma_found_first(s: Seq<char>, p: Seq<char>, from: int, at: int)
    requires
        0 <= from <= at,
        occurs_at(s, p, at),
        forall|i: int| from <= i < at ==> !(#[trigger] occurs_at(s, p, i)),
    ensures
        find_from(s, p, from) == Some(at),
    decreases at - from,
{
    if from < at {
        assert(!occurs_at(s, p, from));
        lemma_found_first(s, p, from + 1, at);
    }
}

proof fn lemma_not_found(s: Seq<char>, p: Seq<char>, from: int)
    requires
        0 <= from,
        forall|i: int| from <= i ==> !(#[trigger] occurs_at(s, p, i)),
    ensures
        find_from(s, p, from) is None,
    decreases s.len() - from + 1,
{
    if from + p.len() <= s.len() {
        assert(!occurs_at(s, p, from));
        lemma_not_found(s, p, from + 1);
    }
}

/// A resolution `name@npm:version` names the package and its version, a scope before the name
/// included; a version with a `#` is a repository's, and no package.
pub proof fn law_npm_resolution(name: Seq<char>, version: Seq<char>)
    requires
        name.len() > 0,
        version.len() > 0,
        free_of(name, ':'),
    ensures
        npm_spec(name + "@npm:"@ + version) == (if free_of(version, '#') {
            Some((name, version))
        } else {
            None
        }),
{
    reveal_strlit("@npm:");
    let p = "@npm:"@;
    let s = name + p + version;
    let n = name.len() as int;
    assert(s.subrange(n, n + p.len()) =~= p);
    assert forall|i: int| 0 <= i < n implies !(#[trigger] occurs_at(s, p, i)) by {
        if occurs_at(s, p, i) {
            let t = s.subrange(i, i + p.len());
            if i + 4 < n {
                assert(t[4] == s[i + 4]);
                assert(name[i + 4] == ':');
            } else {
                assert(t[n - i] == s[n]);
                assert(s[n] == '@');
                assert(p[n - i] != '@');
            }
        }
    }
    lemma_found_first(s, p, 0, n);
    assert(s.take(n) =~= name);
    assert(s.skip(n + p.len()) =~= version);
    if free_of(version, '#') {
        lemma_no_place(version, '#');
    } else {
        lemma_span(version, other_than('#'));
        if index_of(version, '#') >= version.len() {
            assert forall|i: int| 0 <= i < version.len() implies #[trigger] version[i] != '#' by {
                assert(other_than('#')(version[i]));
            }
        }
    }
}

/// A `resolution:` line that is written behind a `yarn.lock` is one package more.
pub proof fn law_a_further_resolution(text: Seq<char>, name: Seq<char>, version: Seq<char>)
    requires
        whole_lines(text),
        name.len() > 0,
        version.len() > 0,
        quotable(name),
        quotable(version),
        free_of(name, ':'),
        free_of(version, '#'),
    ensures
        ({
            let line = "  resolution: \""@ + name + "@npm:"@ + version + "\""@;
            lines(text + line + seq!['\n']).filter_map(yarn_line()) == lines(text).filter_map(
                yarn_line(),
            ).push((name, version))
        }),
{
    reveal_strlit("  resolution: \"");
    reveal_strlit("resolution:");
    reveal_strlit("@npm:");
    reveal_strlit("\"");
    let spec = name + "@npm:"@ + version;
    let line = "  resolution: \""@ + name + "@npm:"@ + version + "\""@;
    let quoted = seq!['"'] + spec + seq!['"'];
    let body = "resolution:"@ + (seq![' '] + quoted);
    assert(line =~= seq![' ', ' '] + body + seq![]);
    assert(free_of(line, '\n'));
    assert(line.last() == '"');
    law_a_further_line(text, line);
    law_trim_takes_off_what_is_around(seq![' ', ' '], body, seq![]);
    assert(trim(line) == body);
    assert(body.take("resolution:"@.len() as int) =~= "resolution:"@);
    assert(body.skip("resolution:"@.len() as int) =~= seq![' '] + quoted);
    law_trim_takes_off_what_is_around(seq![' '], quoted, seq![]);
    assert(seq![' '] + quoted + seq![] =~= seq![' '] + quoted);
    assert(spec[0] == name[0] && spec.last() == version.last());
    lemma_trim_quotes(spec);
    law_npm_resolution(name, version);
    lemma_pushed(lines(text), line, yarn_line());
}

/// Name and version on the two sides of the last `@`, a scope before the name included.
pub proof fn law_name_and_version_at_the_last_at(name: Seq<char>, version: Seq<char>)
    requires
        name.len() > 0,
        version.len() > 0,
        free_of(version, '@'),
    ensures
        at_spec(name + seq!['@'] + version) == Some((name, version)),
{
    let s = name + seq!['@'] + version;
    lemma_after_last_is(s, '@', name.len() as int + 1);
    assert(s.take(name.len() as int) =~= name);
    assert(s.skip(name.len() as int + 1) =~= version);
}

/// Where a character last occurs.
pub proof fn lemma_after_last_is(s: Seq<char>, c: char, k: int)
    requires
        0 <= k <= s.len(),
        k > 0 ==> s[k - 1] == c,
        forall|j: int| k <= j < s.len() ==> #[trigger] s[j] != c,
    ensures
        after_last(s, c) == k,
    decreases s.len(),
{
    if s.len() > 0 {
        if s.len() == k {
        } else {
            assert(s[s.len() - 1] != c);
            let t = s.drop_last();
            assert forall|j: int| k <= j < t.len() implies #[trigger] t[j] != c by {
                assert(t[j] == s[j]);
            }
            if k > 0 {
                assert(t[k - 1] == s[k - 1]);
            }
            lemma_after_last_is(t, c, k);
        }
    }
}

/// Each entry under `packages` of a `bun.lock` whose list starts with `name@version` is a package.
pub proof fn law_packages_of_a_bun_lock(
    entries: Seq<(Seq<char>, DocView)>,
    d: DocView,
    i: int,
    name: Seq<char>,
    version: Seq<char>,
    items: Seq<DocView>,
)
    requires
        table_of(field(d, "packages"@)) == Some(entries),
        0 <= i < entries.len(),
        entries[i].1 == DocView::List(items),
        items.len() > 0,
        items[0] == DocView::Text(name + seq!['@'] + version),
        name.len() > 0,
        version.len() > 0,
        free_of(version, '@'),
    ensures
        bun_packages(d).contains((name, version)),
{
    law_name_and_version_at_the_last_at(name, version);
    let j = lemma_picked(entries, bun_package(), i);
    assert(bun_packages(d)[j] == (name, version));
}

proof fn lemma_rfound(s: Seq<char>, p: Seq<char>, from: int, at: int)
    requires
        0 <= at <= from,
        occurs_at(s, p, at),
        forall|i: int| at < i <= from ==> !(#[trigger] occurs_at(s, p, i)),
    ensures
        rfind_from(s, p, from) == Some(at),
    decreases from - at,
{
    if at < from {
        assert(!occurs_at(s, p, from));
        lemma_rfound(s, p, from - 1, at);
    }
}

proof fn lemma_not_rfound(s: Seq<char>, p: Seq<char>, from: int)
    requires
        forall|i: int| 0 <= i <= from ==> !(#[trigger] occurs_at(s, p, i)),
    ensures
        rfind_from(s, p, from) is None,
    decreases from + 1,
{
    if from >= 0 {
        assert(!occurs_at(s, p, from));
        lemma_not_rfound(s, p, from - 1);
    }
}

/// Whether `p` stands nowhere in `s`.
pub open spec fn lacks_text(s: Seq<char>, p: Seq<char>) -> bool {
    forall|i: int| !(#[trigger] occurs_at(s, p, i))
}

/// The name of a locked package is what stands behind the last `node_modules/` of its key, however
/// deep it is nested; the entry of the project itself names none.
pub proof fn law_name_of_a_locked_package(outer: Seq<char>, name: Seq<char>)
    requires
        lacks_text(name, "node_modules/"@),
    ensures
        locked_name("node_modules/"@ + name) == Some(name),
        !starts(outer, "node_modules/"@) ==> locked_name(outer) is None,
{
    reveal_strlit("node_modules/");
    let p = "node_modules/"@;
    let key = p + name;
    assert(key.take(p.len() as int) =~= p);
    assert(key.skip(p.len() as int) =~= name);
    assert forall|i: int| 0 <= i <= name.len() implies !(#[trigger] occurs_at(name, p, i)) by {}
    lemma_not_rfound(name, p, name.len() as int);
}

/// A package that is nested in another is called by its own name.
pub proof fn law_name_of_a_nested_package(outer: Seq<char>, name: Seq<char>)
    requires
        lacks_text(name, "node_modules/"@),
    ensures
        locked_name("node_modules/"@ + (outer + "node_modules/"@ + name)) == Some(name),
{
    reveal_strlit("node_modules/");
    let p = "node_modules/"@;
    let rest = outer + p + name;
    let key = p + rest;
    let n = outer.len() as int;
    assert(key.take(p.len() as int) =~= p);
    assert(key.skip(p.len() as int) =~= rest);
    assert(rest.subrange(n, n + p.len()) =~= p);
    assert forall|i: int| n < i <= rest.len() implies !(#[trigger] occurs_at(rest, p, i)) by {
        if occurs_at(rest, p, i) {
            let t = rest.subrange(i, i + p.len());
            if i >= n + 13 {
                let k = i - n - 13;
                assert(name.subrange(k, k + p.len()) =~= t);
                assert(occurs_at(name, p, k));
            } else {
                let k = n + 12 - i;
                assert(t[k] == rest[n + 12]);
                assert(rest[n + 12] == '/');
                assert(p[k] != '/');
            }
        }
    }
    lemma_rfound(rest, p, rest.len() as int, n);
    assert(rest.skip(n + p.len()) =~= name);
}

/// Each entry under `packages` of a `package-lock.json` with a version is a package, under the name
/// behind `node_modules/`.
pub proof fn law_packages_of_a_package_lock(
    entries: Seq<(Seq<char>, DocView)>,
    d: DocView,
    i: int,
    name: Seq<char>,
    version: Seq<char>,
)
    requires
        table_of(field(d, "packages"@)) == Some(entries),
        0 <= i < entries.len(),
        entries[i].0 == "node_modules/"@ + name,
        name.len() > 0,
        lacks_text(name, "node_modules/"@),
        text_field(entries[i].1, "version"@) == Some(version),
    ensures
        locked_packages(d).contains((name, version)),
{
    law_name_of_a_locked_package(seq![], name);
    let j = lemma_picked(entries, locked_package(), i);
    assert(locked_packages(d)[j] == (name, version));
}

/// Each pin of a `Package.resolved` is a dependency: under `package` and `repositoryURL` in the first
/// form of the file, under `identity` and `location` in later ones.
pub proof fn law_pins_of_a_package_resolved(
    d: DocView,
    pins: Seq<DocView>,
    i: int,
    id: Seq<char>,
    at: Seq<char>,
    first: bool,
)
    requires
        first <==> (signed_field(d, "version"@) is Some && signed_field(d, "version"@)->0 <= 1),
        first ==> field(d, "object"@) is Some && list_of(field(field(d, "object"@)->0, "pins"@))
            == Some(pins),
        !first ==> list_of(field(d, "pins"@)) == Some(pins),
        0 <= i < pins.len(),
        first ==> text_field(pins[i], "package"@) == Some(id) && text_field(
            pins[i],
            "repositoryURL"@,
        ) == Some(at),
        !first ==> text_field(pins[i], "identity"@) == Some(id) && text_field(
            pins[i],
            "location"@,
        ) == Some(at),
    ensures
        pins_in(d).contains((id, at)),
{
    let j = lemma_picked(pins, pin_of(first), i);
    assert(pins_in(d)[j] == (id, at));
}

/// The repository that a URL names is called by the last part of its path, without `.git`, without
/// query and without revision.
pub proof fn law_name_of_a_repository(
    front: Seq<char>,
    name: Seq<char>,
    query: Seq<char>,
    revision: Seq<char>,
)
    requires
        name.len() > 0,
        free_of(front, '#'),
        free_of(front, '?'),
        free_of(name, '#'),
        free_of(name, '?'),
        free_of(name, '/'),
        free_of(query, '#'),
        !ends(name, ".git"@),
    ensures
        repo_basename(front + seq!['/'] + name) == Some(name),
        repo_basename(front + seq!['/'] + (name + ".git"@)) == Some(name),
        repo_basename(
            front + seq!['/'] + name + seq!['?'] + query + seq!['#'] + revision,
        ) == Some(name),
{
    reveal_strlit(".git");
    let a = front + seq!['/'] + name;
    let n = front.len() as int + 1;
    lemma_no_place(a, '#');
    lemma_no_place(a, '?');
    assert(a.take(a.len() as int) =~= a);
    lemma_after_last_is(a, '/', n);
    assert(a.skip(n) =~= name);
    assert(off_suffix(name, ".git"@) == name);
    let long = name + ".git"@;
    let b = front + seq!['/'] + long;
    lemma_no_place(b, '#');
    lemma_no_place(b, '?');
    assert(b.take(b.len() as int) =~= b);
    lemma_after_last_is(b, '/', n);
    assert(b.skip(n) =~= long);
    assert(long.skip(long.len() - 4) =~= ".git"@);
    assert(long.take(long.len() - 4) =~= name);
    let q = a + seq!['?'] + query;
    let c = q + seq!['#'] + revision;
    assert(c =~= front + seq!['/'] + name + seq!['?'] + query + seq!['#'] + revision);
    lemma_first_place(q, revision, '#');
    lemma_first_place(a, query, '?');
    assert(up_to(c, '#') == q);
    assert(up_to(q, '?') == a);
}

/// A package whose source is a repository is found under the repository's name.
pub proof fn law_a_further_block_from_a_repository(
    text: Seq<char>,
    name: Seq<char>,
    version: Seq<char>,
    front: Seq<char>,
    repo: Seq<char>,
    revision: Seq<char>,
)
    requires
        whole_lines(text),
        quotable(name),
        quotable(version),
        quotable(front),
        quotable(repo),
        quotable(revision),
        repo.len() > 0,
        free_of(front, '#'),
        free_of(front, '?'),
        free_of(repo, '#'),
        free_of(repo, '?'),
        free_of(repo, '/'),
        !ends(repo, ".git"@),
    ensures
        ({
            let source = "git+"@ + (front + seq!['/'] + repo + seq!['?'] + seq![] + seq!['#']
                + revision);
            let p = LockPackageView { name, version, source: Some(source) };
            let before = lock_packages(lines(text), lock_start(false));
            let after = lock_packages(lines(text + lock_block(p)), lock_start(false));
            after.filter_map(git_key()) == before.filter_map(git_key()).push(
                KeyView { name, version, extra: Some(repo) },
            )
        }),
{
    reveal_strlit("git+");
    let url = front + seq!['/'] + repo + seq!['?'] + seq![] + seq!['#'] + revision;
    let source = "git+"@ + url;
    let p = LockPackageView { name, version, source: Some(source) };
    assert(quotable(source));
    law_a_further_block_is_a_further_package(text, p);
    law_name_of_a_repository(front, repo, seq![], revision);
    assert(source.take(4) =~= "git+"@);
    assert(source.skip(4) =~= url);
    lemma_pushed(lock_packages(lines(text), lock_start(false)), p, git_key());
}

/// Four characters of base64 spell three bytes: the same number of twenty-four bits.
pub proof fn law_base64_keeps_the_number(a: u8, b: u8, c: u8, d: u8, rest: Seq<u8>)
    requires
        a < 64,
        b < 64,
        c < 64,
        d < 64,
    ensures
        ({
            let p = packed(seq![a, b, c, d] + rest);
            &&& p.len() == 3 + packed(rest).len()
            &&& p.skip(3) == packed(rest)
            &&& p[0] as int * 65536 + p[1] as int * 256 + p[2] as int == a as int * 262144 + b as int
                * 4096 + c as int * 64 + d as int
        }),
{
    let v = seq![a, b, c, d] + rest;
    assert(v[0] == a && v[1] == b && v[2] == c && v[3] == d);
    assert(v.skip(4) =~= rest);
    let p = packed(v);
    assert(p.skip(3) =~= packed(rest));
    assert(a * 4 + b / 16 < 256);
    assert(b % 16 * 16 + c / 4 < 256);
    assert(c % 4 * 64 + d < 256);
    assert(p[0] == a * 4 + b / 16);
    assert(p[1] == b % 16 * 16 + c / 4);
    assert(p[2] == c % 4 * 64 + d);
}

/// The alphabet of base64, in the order of the numbers that its characters stand for.
pub proof fn law_base64_alphabet(c: char)
    ensures
        'A' <= c <= 'Z' ==> sextet(c) is Some && sextet(c)->0 == c as int - 'A' as int,
        'a' <= c <= 'z' ==> sextet(c) is Some && sextet(c)->0 == 26 + (c as int - 'a' as int),
        '0' <= c <= '9' ==> sextet(c) is Some && sextet(c)->0 == 52 + (c as int - '0' as int),
        sextet('+') == Some(62u8),
        sextet('/') == Some(63u8),
        sextet(c) is Some ==> sextet(c)->0 < 64,
        sextet('=') is None && base64_filler('='),
{
}

/// The value of a hexadecimal digit in small letters.
pub open spec fn hex_value(c: char) -> int {
    if '0' <= c <= '9' {
        c as int - '0' as int
    } else if 'a' <= c <= 'f' {
        10 + (c as int - 'a' as int)
    } else {
        -1
    }
}

/// The two hexadecimal digits of a byte spell it, and none of them is a capital.
pub proof fn law_hexadecimal_digits_spell_the_byte(b: u8)
    ensures
        hex_pair()(b).len() == 2,
        0 <= hex_value(hex_pair()(b)[0]) < 16,
        0 <= hex_value(hex_pair()(b)[1]) < 16,
        hex_value(hex_pair()(b)[0]) * 16 + hex_value(hex_pair()(b)[1]) == b,
{
    let h: u8 = b / 16;
    let l: u8 = b % 16;
    assert(h < 16 && l < 16);
    assert(h as int * 16 + l as int == b);
    lemma_hex(h);
    lemma_hex(l);
}

proof fn lemma_hex(n: u8)
    requires
        n < 16,
    ensures
        hex_value(hex_char(n)) == n,
{
    if n < 10 {
        assert(hex_char(n) as int == n + 48);
    } else {
        assert(hex_char(n) as int == n + 87);
    }
}

/// What an integrity value names lies under its digest: the three parts together are the digest, the
/// first two are of two digits each.
pub proof fn law_shards_are_the_digest(b64: Seq<char>)
    ensures
        ({
            let r = shard("sha512-"@ + b64);
            match base64_bytes(b64) {
                Some(bytes) => if bytes.len() >= 2 {
                    r is Some && (r->0).0.len() == 2 && (r->0).1.len() == 2 && (r->0).0 + (r->0).1 + (r->0).2
                        == flat(bytes, hex_pair())
                } else {
                    r is None
                },
                None => r is None,
            }
        }),
{
    reveal_strlit("sha512-");
    let s = "sha512-"@ + b64;
    assert(s.take(7) =~= "sha512-"@);
    assert(s.skip(7) =~= b64);
    match base64_bytes(b64) {
        Some(bytes) => {
            lemma_hex_len(bytes);
            let hex = flat(bytes, hex_pair());
            if bytes.len() >= 2 {
                assert(hex.subrange(0, 2) + hex.subrange(2, 4) + hex.skip(4) =~= hex);
            }
        },
        None => {},
    }
}

proof fn lemma_hex_len(bytes: Seq<u8>)
    ensures
        flat(bytes, hex_pair()).len() == 2 * bytes.len(),
    decreases bytes.len(),
{
    if bytes.len() > 0 {
        lemma_hex_len(bytes.drop_last());
    }
}

/// Whether a text holds neither quotation marks nor backslashes.
pub open spec fn plain_value(s: Seq<char>) -> bool {
    free_of(s, '"') && free_of(s, '\\')
}

proof fn lemma_plain(s: Seq<char>)
    requires
        free_of(s, '\\'),
    ensures
        plain_json(s) == s,
    decreases s.len(),
{
    if s.len() > 0 {
        let t = s.skip(1);
        assert forall|i: int| 0 <= i < t.len() implies #[trigger] t[i] != '\\' by {
            assert(t[i] == s[i + 1]);
        }
        lemma_plain(t);
        assert(s[0] != '\\');
        assert(seq![s[0]] + t =~= s);
    } else {
        assert(plain_json(s) =~= s);
    }
}

proof fn lemma_closed(s: Seq<char>, i: int, n: int)
    requires
        0 <= i <= n < s.len(),
        s[n] == '"',
        forall|j: int| i <= j < n ==> #[trigger] s[j] != '"' && s[j] != '\\',
    ensures
        closing_quote(s, i) == Some(n),
    decreases n - i,
{
    if i < n {
        assert(s[i] != '"' && s[i] != '\\');
        lemma_closed(s, i + 1, n);
    }
}

/// The working directory of a session is the value of the first `"cwd"` of its file, wherever in the
/// text it stands.
pub proof fn law_working_directory_of_a_session(
    front: Seq<char>,
    dir: Seq<char>,
    rest: Seq<char>,
)
    requires
        plain_value(dir),
        forall|i: int|
            0 <= i < front.len() ==> !(#[trigger] occurs_at(
                front + "\"cwd\":\""@ + dir + "\""@ + rest,
                "\"cwd\":\""@,
                i,
            )),
    ensures
        cwd_in(front + "\"cwd\":\""@ + dir + "\""@ + rest) == Some(dir),
{
    reveal_strlit("\"cwd\":\"");
    reveal_strlit("\"");
    let p = "\"cwd\":\""@;
    let s = front + p + dir + "\""@ + rest;
    let n = front.len() as int;
    assert(s.subrange(n, n + p.len()) =~= p);
    lemma_found_first(s, p, 0, n);
    let t = s.skip(n + p.len());
    assert(t =~= dir + seq!['"'] + rest);
    assert forall|j: int| 0 <= j < dir.len() implies #[trigger] t[j] != '"' && t[j] != '\\' by {
        assert(t[j] == dir[j]);
    }
    lemma_closed(t, 0, dir.len() as int);
    assert(t.take(dir.len() as int) =~= dir);
    lemma_plain(dir);
}

/// The directory of a project's sessions is named by the project's path, with `-` for every `/` and
/// every `.`, and else letter for letter.
pub proof fn law_name_of_a_sessions_directory(p: Seq<Seq<char>>, i: int)
    requires
        0 <= i < path_text(p).len(),
    ensures
        encoded_dir(p).len() == path_text(p).len(),
        encoded_dir(p)[i] == (if path_text(p)[i] == '/' || path_text(p)[i] == '.' {
            '-'
        } else {
            path_text(p)[i]
        }),
{
}

/// Whether a value needs no quotation marks in a shell command and is none that a shell expands.
pub open spec fn bare_value(s: Seq<char>) -> bool {
    &&& one_word(s)
    &&& free_of(s, ';') && free_of(s, '&') && free_of(s, '|')
    &&& free_of(s, '"') && free_of(s, '\'')
    &&& !starts(s, "${"@)
}

proof fn lemma_unquoted_plain(s: Seq<char>)
    requires
        free_of(s, '"'),
        free_of(s, '\''),
    ensures
        unquoted(s) == s,
{
    assert forall|j: int| 0 <= j < 0 implies just('"')(#[trigger] s[j]) by {}
    lemma_span_is(s, just('"'), 0);
    assert(s.skip(0) =~= s);
    lemma_no_end(s, '"');
    assert forall|j: int| 0 <= j < 0 implies just('\'')(#[trigger] s[j]) by {}
    lemma_span_is(s, just('\''), 0);
    lemma_no_end(s, '\'');
}

proof fn lemma_no_end(s: Seq<char>, c: char)
    requires
        free_of(s, c),
    ensures
        trim_end_where(s, just(c)) == s,
{
    if s.len() > 0 {
        assert(s[s.len() - 1] != c);
    }
}

/// The value of `CARGO_TARGET_DIR` in a command is found: bare, up to where the word ends, and in
/// quotation marks, up to where they close; and the search goes on behind it.
pub proof fn law_target_directories_in_a_command(front: Seq<char>, value: Seq<char>, rest: Seq<char>, q: char)
    requires
        forall|i: int|
            0 <= i < front.len() ==> !(#[trigger] occurs_at(
                front + "CARGO_TARGET_DIR="@ + value + rest,
                "CARGO_TARGET_DIR="@,
                i,
            )),
        bare_value(value),
        rest.len() > 0 ==> is_space(rest[0]) || rest[0] == ';' || rest[0] == '&' || rest[0] == '|',
    ensures
        target_dirs(front + "CARGO_TARGET_DIR="@ + value + rest) == seq![value] + target_dirs(rest),
{
    reveal_strlit("CARGO_TARGET_DIR=");
    reveal_strlit("${");
    let p = "CARGO_TARGET_DIR="@;
    let s = front + p + value + rest;
    let n = front.len() as int;
    assert(s.subrange(n, n + p.len()) =~= p);
    lemma_found_first(s, p, 0, n);
    let after = s.skip(n + p.len());
    assert(after =~= value + rest);
    assert(after[0] == value[0]);
    assert(word_quote(after) is None);
    assert forall|j: int| 0 <= j < value.len() implies in_shell_word()(#[trigger] after[j]) by {
        assert(after[j] == value[j]);
    }
    if rest.len() > 0 {
        assert(after[value.len() as int] == rest[0]);
    }
    lemma_span_is(after, in_shell_word(), value.len());
    assert(after.take(value.len() as int) =~= value);
    assert(after.skip(value.len() as int) =~= rest);
    lemma_unquoted_plain(value);
    assert(shell_word(after) == value);
    assert(shell_default(value) == value);
}

/// The home directory stands in for `~`, `$HOME` and `${HOME}` at the front of a value; another value
/// counts from the project's root, unless it is absolute.
pub proof fn law_home_in_a_target_directory(rest: Seq<char>, home: Seq<Seq<char>>, root: Seq<Seq<char>>)
    requires
        rest.len() == 0 || rest[0] == '/',
    ensures
        home_expanded("~"@ + rest, home) == path_text(home) + rest,
        home_expanded("$HOME"@ + rest, home) == path_text(home) + rest,
        home_expanded("${HOME}"@ + rest, home) == path_text(home) + rest,
        rest.len() > 0 ==> target_dir(rest, home, root) == path_of(rest),
{
    reveal_strlit("~");
    reveal_strlit("$HOME");
    reveal_strlit("${HOME}");
    reveal_strlit("/");
    let a = "~"@ + rest;
    let b = "$HOME"@ + rest;
    let c = "${HOME}"@ + rest;
    assert(a[0] == '~' && b[0] == '$' && b[1] == 'H' && c[1] == '{');
    assert(!starts(a, "${HOME}"@) && !starts(a, "$HOME"@)) by {
        if starts(a, "${HOME}"@) {
            assert(a.take(7)[0] == a[0]);
        }
        if starts(a, "$HOME"@) {
            assert(a.take(5)[0] == a[0]);
        }
    }
    assert(a.take(1) =~= "~"@);
    assert(a.skip(1) =~= rest);
    assert(!starts(b, "${HOME}"@)) by {
        if starts(b, "${HOME}"@) {
            assert(b.take(7)[1] == b[1]);
        }
    }
    assert(b.take(5) =~= "$HOME"@);
    assert(b.skip(5) =~= rest);
    assert(c.take(7) =~= "${HOME}"@);
    assert(c.skip(7) =~= rest);
    if rest.len() > 0 {
        assert(!starts(rest, "${HOME}"@) && !starts(rest, "$HOME"@) && !starts(rest, "~"@)) by {
            if starts(rest, "${HOME}"@) {
                assert(rest.take(7)[0] == rest[0]);
            }
            if starts(rest, "$HOME"@) {
                assert(rest.take(5)[0] == rest[0]);
            }
            if starts(rest, "~"@) {
                assert(rest.take(1)[0] == rest[0]);
            }
        }
        let p = path_of(rest);
        assert(p[0] == crate::fspath::root());
        assert(is_absolute(p));
    }
}

/// A module path without capitals is written as it is in the module cache, and a capital as `!` and the
/// small letter, at whatever place it stands.
pub proof fn law_module_paths_are_escaped(path: Seq<char>, c: char)
    ensures
        flat(path.push(c), escaped_char()) == flat(path, escaped_char()) + (if 'A' <= c <= 'Z' {
            seq!['!', lower(c)]
        } else {
            seq![c]
        }),
        flat(Seq::<char>::empty(), escaped_char()) == Seq::<char>::empty(),
        'A' <= c <= 'Z' ==> lower(c) as int == c as int + 32,
{
    assert(path.push(c).drop_last() =~= path);
    assert(path.push(c).last() == c);
}

/// A pin of Node's that starts with a number is a version: a `v` before it or not, white space around
/// it or not.
#[verifier::rlimit(40)]
pub proof fn law_pins_of_node(a: Seq<char>, v: bool, major: Seq<char>, rest: Seq<char>, b: Seq<char>)
    requires
        blank(a),
        blank(b),
        is_number(major),
        rest.len() == 0 || (rest[0] == '.' && !is_space(rest.last())),
    ensures
        node_pin(
            a + ((if v {
                seq!['v']
            } else {
                seq![]
            }) + major + rest) + b,
        ) is Some,
        node_pin(
            a + ((if v {
                seq!['v']
            } else {
                seq![]
            }) + major + rest) + b,
        )->0.take(1 + major.len() as int) == seq!['v'] + major,
        rest.len() == 0 ==> node_pin(
            a + ((if v {
                seq!['v']
            } else {
                seq![]
            }) + major + rest) + b,
        ) == Some(seq!['v'] + major),
{
    reveal_strlit("v");
    let head = if v {
        seq!['v']
    } else {
        seq![]
    };
    let m = head + major + rest;
    assert(major.len() > 0);
    assert(is_digit(major[0]) && is_digit(major[major.len() - 1]));
    assert(m[0] == (if v {
        'v'
    } else {
        major[0]
    }));
    assert(m.last() == (if rest.len() > 0 {
        rest.last()
    } else {
        major.last()
    }));
    law_trim_takes_off_what_is_around(a, m, b);
    let t = major + rest;
    if v {
        assert(m.take(1) =~= "v"@);
        assert(m.skip(1) =~= t);
    } else {
        if starts(m, "v"@) {
            assert(m.take(1)[0] == m[0]);
        }
        assert(m =~= t);
    }
    assert(free_of(major, '.')) by {
        assert forall|i: int| 0 <= i < major.len() implies #[trigger] major[i] != '.' by {
            assert(is_digit(major[i]));
        }
    }
    let parts = split(t, '.');
    if rest.len() > 0 {
        law_first_piece(major, rest.skip(1), '.');
        assert(t =~= major + seq!['.'] + rest.skip(1));
    } else {
        law_first_piece(major, seq![], '.');
        assert(t =~= major);
        assert(parts.skip(1).len() == 0);
        assert(dotted(parts.skip(1)) =~= seq![]);
    }
    assert(parts[0] == major);
    let r = "v"@ + parts[0] + dotted(parts.skip(1));
    assert(r.take(1 + major.len() as int) =~= seq!['v'] + major);
    if rest.len() == 0 {
        assert(r =~= seq!['v'] + major);
    }
}

} // verus!
