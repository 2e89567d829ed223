//! What manifests and lock files say: functions from a text to what it lists.

use vstd::prelude::*;
use vstd::slice::slice_subrange;

use crate::attribution::apps::owners::with_new;
use crate::attribution::model::{EnvView, ResolveEnv};
use crate::attribution::projects::{put_text, put_texts};
use crate::doc::{
    field, json_document, list_of, parse_json, parse_toml, signed_field, table_of, text_field, text_of,
    toml_document, Doc, DocView,
};
use crate::fspath::{child, is_absolute, joined, path_of, path_text, FilePath};
use crate::seqs::{
    first_some, flat, lemma_filter_map_start, lemma_first_some_step, lemma_flat_start,
    lemma_flat_step,
};
use crate::text::{
    after_last, cat2, chars_of, ends, find_char, find_last, find_sub, find_text, has_char,
    holds_char, index_of, is_digit, is_space, is_upper, just, lemma_find_from, lemma_span,
    lemma_span_is, lines, lines_of, lower, lower_char, next_word, occurs_at, rfind_sub, rfind_text,
    same, space_char, span, split, split_at_char, starts, starts_with, string_of, strip_prefix,
    strip_suffix, swap_char, swapped, trim, trim_end_where, trim_start, trim_where, trimmed,
    trimmed_char, trimmed_end_char, trimmed_start, without_prefix, without_suffix, words,
};

verus! {

/// A package or module that a manifest names.
#[derive(Clone, Debug, PartialEq, Eq)]
pub struct Key {
    pub name: String,
    pub version: String,
    /// What else is needed to find it, such as the name of its repository.
    pub extra: Option<String>,
}

/// A package or module that a manifest names, as a value.
#[verifier::ext_equal]
pub struct KeyView {
    pub name: Seq<char>,
    pub version: Seq<char>,
    pub extra: Option<Seq<char>>,
}

impl View for Key {
    type V = KeyView;

    open spec fn view(&self) -> KeyView {
        KeyView {
            name: self.name@,
            version: self.version@,
            extra: self.extra.deep_view(),
        }
    }
}

impl DeepView for Key {
    type V = KeyView;

    open spec fn deep_view(&self) -> KeyView {
        self@
    }
}

/// Put a key behind the others.
pub fn put_key(keys: &mut Vec<Key>, key: Key)
    ensures
        final(keys).deep_view() == old(keys).deep_view().push(key@),
{
    let ghost was = keys.deep_view();
    keys.push(key);
    assert(keys.deep_view() =~= was.push(key@));
}

/// What stands before the first `c`, where there is one.
pub open spec fn before_char(s: Seq<char>, c: char) -> Option<Seq<char>> {
    if has_char(s, c) {
        Some(s.take(index_of(s, c) as int))
    } else {
        None
    }
}

pub(crate) fn up_to_char(s: &[char], c: char) -> (r: Option<String>)
    ensures
        r.deep_view() == before_char(s@, c),
{
    let k = find_char(s, c);
    if k < s.len() {
        let v = slice_subrange(s, 0, k);
        assert(v@ =~= s@.take(k as int));
        Some(string_of(v))
    } else {
        None
    }
}

/// A text without one `=` at its front.
pub open spec fn behind_equals(s: Seq<char>) -> Seq<char> {
    if starts(s, "="@) {
        s.skip("="@.len() as int)
    } else {
        s
    }
}

/// The first word.
pub open spec fn first_word(s: Seq<char>) -> Option<Seq<char>> {
    if words(s).len() > 0 {
        Some(words(s)[0])
    } else {
        None
    }
}

/// A value: what stands between quotation marks, or else the first word.
pub open spec fn bare_or_quoted(s: Seq<char>) -> Option<Seq<char>> {
    if starts(s, "\""@) {
        before_char(s.skip("\""@.len() as int), '"')
    } else if starts(s, "'"@) {
        before_char(s.skip("'"@.len() as int), '\'')
    } else {
        first_word(s)
    }
}

/// The value of `key` in a line `key = "value"`, `key = value` or `key value`.
pub open spec fn value_in(line: Seq<char>, key: Seq<char>) -> Option<Seq<char>> {
    match without_prefix(trim_start(line), key) {
        Some(rest) => if rest.len() > 0 && (is_space(rest[0]) || rest[0] == '=') {
            bare_or_quoted(trim(behind_equals(trim_start(rest))))
        } else {
            None
        },
        None => None,
    }
}

/// The value of `key` in a line `key = "value"`, `key = value` or `key value`. The key has to end
/// where the line's first word ends: `nodefoo` is not `node`.
pub fn key_value_field(line: &str, key: &str) -> (r: Option<String>)
    ensures
        r.deep_view() == value_in(line@, key@),
{
    let c = chars_of(line);
    let rest = match strip_prefix(trimmed_start(c.as_slice()), key) {
        Some(rest) => rest,
        None => {
            return None;
        },
    };
    if !(rest.len() > 0 && (space_char(rest[0]) || rest[0] == '=')) {
        return None;
    }
    let rest = trimmed_start(rest);
    let rest = match strip_prefix(rest, "=") {
        Some(r) => trimmed(r),
        None => trimmed(rest),
    };
    if let Some(inner) = strip_prefix(rest, "\"") {
        return up_to_char(inner, '"');
    }
    if let Some(inner) = strip_prefix(rest, "'") {
        return up_to_char(inner, '\'');
    }
    match next_word(rest) {
        Some((w, _)) => Some(string_of(w)),
        None => None,
    }
}

/// The value of `key` that a line gives.
pub open spec fn line_value(key: Seq<char>) -> spec_fn(Seq<char>) -> Option<Seq<char>> {
    |line: Seq<char>| value_in(trim(line), key)
}

/// The value of `key` in the first line that gives one.
pub fn first_key_value(text: &str, key: &str) -> (r: Option<String>)
    ensures
        r.deep_view() == first_some(lines(text@), line_value(key@)),
{
    let l = lines_of(text);
    let ghost all = lines(text@);
    let mut i: usize = 0;
    assert(all.skip(0) =~= all);
    while i < l.len()
        invariant
            i <= l.len(),
            all == l.deep_view(),
            all == lines(text@),
            first_some(all, line_value(key@)) == first_some(all.skip(i as int), line_value(key@)),
        decreases l.len() - i,
    {
        proof {
            assert(all[i as int] == l@[i as int]@);
            lemma_first_some_step(all, line_value(key@), i as int);
        }
        let c = chars_of(l[i].as_str());
        let t = string_of(trimmed(c.as_slice()));
        let v = key_value_field(t.as_str(), key);
        if v.is_some() {
            return v;
        }
        i = i + 1;
    }
    None
}

/// A line that is neither empty nor a comment nor the header of a section, without the space
/// around it.
pub open spec fn bare_line() -> spec_fn(Seq<char>) -> Option<Seq<char>> {
    |line: Seq<char>|
        {
            let t = trim(line);
            if t.len() == 0 || starts(t, "#"@) || starts(t, "["@) {
                None
            } else {
                Some(t)
            }
        }
}

/// The first line that is neither empty nor a comment nor the header of a section.
pub fn first_bare_line(text: &str) -> (r: Option<String>)
    ensures
        r.deep_view() == first_some(lines(text@), bare_line()),
{
    let l = lines_of(text);
    let ghost all = lines(text@);
    let mut i: usize = 0;
    assert(all.skip(0) =~= all);
    while i < l.len()
        invariant
            i <= l.len(),
            all == l.deep_view(),
            all == lines(text@),
            first_some(all, bare_line()) == first_some(all.skip(i as int), bare_line()),
        decreases l.len() - i,
    {
        proof {
            assert(all[i as int] == l@[i as int]@);
            lemma_first_some_step(all, bare_line(), i as int);
        }
        let c = chars_of(l[i].as_str());
        let t = trimmed(c.as_slice());
        if t.len() > 0 && !starts_with(t, "#") && !starts_with(t, "[") {
            return Some(string_of(t));
        }
        i = i + 1;
    }
    None
}

/// A text without the space around it, unless nothing is left.
pub open spec fn trimmed_pin(raw: Seq<char>) -> Option<Seq<char>> {
    if trim(raw).len() > 0 {
        Some(trim(raw))
    } else {
        None
    }
}

/// A pin that is used as it stands, without the space around it.
pub fn identity(raw: &str) -> (r: Option<String>)
    ensures
        r.deep_view() == trimmed_pin(raw@),
{
    let c = chars_of(raw);
    let t = trimmed(c.as_slice());
    if t.len() > 0 {
        Some(string_of(t))
    } else {
        None
    }
}

/// Whether a text is a number, digit by digit.
pub open spec fn is_number(s: Seq<char>) -> bool {
    s.len() > 0 && forall|i: int| 0 <= i < s.len() ==> is_digit(#[trigger] s[i])
}

fn numeric(s: &str) -> (r: bool)
    ensures
        r == is_number(s@),
{
    let c = chars_of(s);
    if c.len() == 0 {
        return false;
    }
    let mut i: usize = 0;
    while i < c.len()
        invariant
            i <= c.len(),
            c@ == s@,
            forall|j: int| 0 <= j < i ==> is_digit(#[trigger] s@[j]),
        decreases c.len() - i,
    {
        if !('0' <= c[i] && c[i] <= '9') {
            assert(!is_digit(s@[i as int]));
            return false;
        }
        i = i + 1;
    }
    true
}

/// The numbers at the front of `parts`, each behind a dot.
pub open spec fn dotted(parts: Seq<Seq<char>>) -> Seq<char>
    decreases parts.len(),
{
    if parts.len() == 0 || !is_number(parts[0]) {
        seq![]
    } else {
        seq!['.'] + parts[0] + dotted(parts.skip(1))
    }
}

/// A text without one `v` at its front.
pub open spec fn without_v(s: Seq<char>) -> Seq<char> {
    if starts(s, "v"@) {
        s.skip("v"@.len() as int)
    } else {
        s
    }
}

/// The version that a pin of Node's gives, as `vMAJOR`, `vMAJOR.MINOR` and so on.
pub open spec fn node_pin(raw: Seq<char>) -> Option<Seq<char>> {
    let parts = split(without_v(trim(raw)), '.');
    if is_number(parts[0]) {
        Some("v"@ + parts[0] + dotted(parts.skip(1)))
    } else {
        None
    }
}

/// The version that a pin of Node's gives, as `vMAJOR`, `vMAJOR.MINOR` and so on, up to the first
/// part that is no number. Nothing where the first part is none, as in `lts/*`.
pub fn normalise_node_pin(raw: &str) -> (r: Option<String>)
    ensures
        r.deep_view() == node_pin(raw@),
{
    let c = chars_of(raw);
    let t = trimmed(c.as_slice());
    let t = match strip_prefix(t, "v") {
        Some(rest) => rest,
        None => t,
    };
    let parts = split_at_char(t, '.');
    let ghost all = split(t@, '.');
    assert(parts.deep_view().len() == parts.len());
    assert(all.len() > 0);
    assert(all[0] == parts@[0]@);
    if !numeric(parts[0].as_str()) {
        return None;
    }
    let mut out = cat2("v", parts[0].as_str());
    let ghost tail = all.skip(1);
    let mut i: usize = 1;
    proof {
        assert(all.skip(i as int) =~= tail);
        assert(out@ + dotted(tail) =~= "v"@ + all[0] + dotted(tail));
    }
    while i < parts.len()
        invariant
            1 <= i <= parts.len(),
            all == parts.deep_view(),
            out@ + dotted(all.skip(i as int)) == "v"@ + all[0] + dotted(tail),
        ensures
            out@ == "v"@ + all[0] + dotted(tail),
        decreases parts.len() - i,
    {
        let ghost was = out@;
        let ghost now = all.skip(i as int);
        proof {
            assert(now[0] == parts@[i as int]@);
            assert(now.skip(1) =~= all.skip(i + 1));
        }
        if !numeric(parts[i].as_str()) {
            assert(dotted(now) =~= seq![]);
            assert(was + dotted(now) =~= was);
            break;
        }
        out.push('.');
        out.append(parts[i].as_str());
        i = i + 1;
        proof {
            assert(out@ + dotted(all.skip(i as int)) =~= was + (seq!['.'] + now[0] + dotted(
                all.skip(i as int),
            )));
            if i == parts.len() {
                assert(dotted(all.skip(i as int)) =~= seq![]);
                assert(out@ + dotted(all.skip(i as int)) =~= out@);
            }
        }
    }
    Some(out)
}

/// A package that a `package-lock.json` lists.
#[derive(Clone, Debug, PartialEq, Eq)]
pub struct PackageRef {
    pub name: String,
    pub version: String,
}

impl DeepView for PackageRef {
    type V = (Seq<char>, Seq<char>);

    open spec fn deep_view(&self) -> (Seq<char>, Seq<char>) {
        (self.name@, self.version@)
    }
}

/// The package's own name in a key under `packages`: what stands behind the last `node_modules/`.
pub open spec fn locked_name(key: Seq<char>) -> Option<Seq<char>> {
    match without_prefix(key, "node_modules/"@) {
        Some(rest) => match rfind_sub(rest, "node_modules/"@) {
            Some(i) => Some(rest.skip(i + "node_modules/"@.len())),
            None => Some(rest),
        },
        None => None,
    }
}

/// The package that an entry under `packages` stands for.
pub open spec fn locked_package() -> spec_fn((Seq<char>, DocView)) -> Option<
    (Seq<char>, Seq<char>),
> {
    |e: (Seq<char>, DocView)|
        match locked_name(e.0) {
            Some(name) => match text_field(e.1, "version"@) {
                Some(version) => if name.len() > 0 {
                    Some((name, version))
                } else {
                    None
                },
                None => None,
            },
            None => None,
        }
}

/// The packages that a `package-lock.json` lists.
pub open spec fn locked_packages(d: DocView) -> Seq<(Seq<char>, Seq<char>)> {
    match table_of(field(d, "packages"@)) {
        Some(entries) => entries.filter_map(locked_package()),
        None => seq![],
    }
}

fn own_name(key: &str) -> (r: Option<String>)
    ensures
        r.deep_view() == locked_name(key@),
{
    let c = chars_of(key);
    match strip_prefix(c.as_slice(), "node_modules/") {
        Some(rest) => match rfind_text(rest, "node_modules/") {
            Some(i) => {
                let p = chars_of("node_modules/");
                let n = rest.len();
                assert(i + p@.len() <= n);
                let tail = slice_subrange(rest, i + p.len(), n);
                assert(tail@ =~= rest@.skip(i + "node_modules/"@.len()));
                Some(string_of(tail))
            },
            None => Some(string_of(rest)),
        },
        None => None,
    }
}

fn is_empty(s: &str) -> (r: bool)
    ensures
        r == (s@.len() == 0),
{
    let c = chars_of(s);
    c.len() == 0
}

fn lock_entry(key: &str, val: &Doc) -> (r: Option<PackageRef>)
    ensures
        r.deep_view() == locked_package()((key@, val@)),
{
    match own_name(key) {
        Some(name) => match val.text("version") {
            Some(version) => if !is_empty(name.as_str()) {
                Some(PackageRef { name, version: version.to_owned() })
            } else {
                None
            },
            None => None,
        },
        None => None,
    }
}

/// The packages that a parsed `package-lock.json` lists under `packages`. A package inside another
/// one's `node_modules` counts under its own name.
pub fn lock_entries(d: &Doc) -> (r: Vec<PackageRef>)
    ensures
        r.deep_view() == locked_packages(d@),
{
    let mut out: Vec<PackageRef> = Vec::new();
    match d.entries("packages") {
        Some(entries) => {
            let ghost all = entries.deep_view();
            let mut i: usize = 0;
            proof {
                lemma_filter_map_start(all, locked_package());
                assert(out.deep_view() =~= all.take(0).filter_map(locked_package()));
            }
            while i < entries.len()
                invariant
                    i <= entries.len(),
                    all == entries.deep_view(),
                    out.deep_view() == all.take(i as int).filter_map(locked_package()),
                decreases entries.len() - i,
            {
                proof {
                    assert(all[i as int] == (entries@[i as int].0@, entries@[i as int].1@));
                    all.lemma_filter_map_take_succ(locked_package(), i as int);
                }
                let ghost was = out.deep_view();
                if let Some(p) = lock_entry(entries[i].0.as_str(), &entries[i].1) {
                    out.push(p);
                    assert(out.deep_view() =~= was.push(p.deep_view()));
                }
                assert(out.deep_view() =~= all.take(i + 1).filter_map(locked_package()));
                i = i + 1;
            }
            assert(all.take(i as int) =~= all);
            out
        },
        None => {
            assert(out.deep_view() =~= seq![]);
            out
        },
    }
}

/// The packages that the text of a `package-lock.json` lists; none where it is no JSON.
pub fn package_lock(text: &str) -> (r: Vec<PackageRef>)
    ensures
        r.deep_view() == (match json_document(text@) {
            Some(d) => locked_packages(d),
            None => seq![],
        }),
{
    match parse_json(text) {
        Some(d) => lock_entries(&d),
        None => {
            let r: Vec<PackageRef> = Vec::new();
            assert(r.deep_view() =~= seq![]);
            r
        },
    }
}

/// Name and version in `name@npm:version`.
pub open spec fn npm_spec(spec: Seq<char>) -> Option<(Seq<char>, Seq<char>)> {
    match find_sub(spec, "@npm:"@) {
        Some(i) => {
            let name = spec.take(i);
            let version = spec.skip(i + "@npm:"@.len());
            if name.len() == 0 || version.len() == 0 || has_char(version, '#') {
                None
            } else {
                Some((name, version))
            }
        },
        None => None,
    }
}

/// Name and version in `name@npm:version`; nothing for a patch, a workspace or a repository.
pub fn parse_npm_spec(spec: &str) -> (r: Option<(String, String)>)
    ensures
        r.deep_view() == npm_spec(spec@),
{
    let c = chars_of(spec);
    match find_text(c.as_slice(), "@npm:", 0) {
        Some(i) => {
            let p = chars_of("@npm:");
            let n = c.len();
            assert(occurs_at(c@, p@, i as int));
            assert(i + p@.len() <= n);
            let name = slice_subrange(c.as_slice(), 0, i);
            let version = slice_subrange(c.as_slice(), i + p.len(), n);
            assert(name@ =~= spec@.take(i as int));
            assert(version@ =~= spec@.skip(i + "@npm:"@.len()));
            if name.len() == 0 || version.len() == 0 || holds_char(version, '#') {
                None
            } else {
                Some((string_of(name), string_of(version)))
            }
        },
        None => None,
    }
}

/// What a `resolution:` line of a `yarn.lock` resolves to.
pub open spec fn yarn_line() -> spec_fn(Seq<char>) -> Option<(Seq<char>, Seq<char>)> {
    |line: Seq<char>|
        match without_prefix(trim(line), "resolution:"@) {
            Some(rest) => npm_spec(trim_where(trim(rest), just('"'))),
            None => None,
        }
}

fn yarn_entry(line: &str) -> (r: Option<(String, String)>)
    ensures
        r.deep_view() == yarn_line()(line@),
{
    let c = chars_of(line);
    match strip_prefix(trimmed(c.as_slice()), "resolution:") {
        Some(rest) => parse_npm_spec(string_of(trimmed_char(trimmed(rest), '"')).as_str()),
        None => None,
    }
}

/// The packages that the `resolution:` lines of a `yarn.lock` name, each with its version.
pub fn yarn_berry(text: &str) -> (r: Vec<(String, String)>)
    ensures
        r.deep_view() == lines(text@).filter_map(yarn_line()),
{
    let l = lines_of(text);
    let ghost all = l.deep_view();
    let mut out: Vec<(String, String)> = Vec::new();
    let mut i: usize = 0;
    proof {
        lemma_filter_map_start(all, yarn_line());
        assert(out.deep_view() =~= all.take(0).filter_map(yarn_line()));
    }
    while i < l.len()
        invariant
            i <= l.len(),
            all == l.deep_view(),
            out.deep_view() == all.take(i as int).filter_map(yarn_line()),
        decreases l.len() - i,
    {
        proof {
            assert(all[i as int] == l@[i as int]@);
            all.lemma_filter_map_take_succ(yarn_line(), i as int);
        }
        let ghost was = out.deep_view();
        if let Some(p) = yarn_entry(l[i].as_str()) {
            out.push(p);
            assert(out.deep_view() =~= was.push(p.deep_view()));
        }
        assert(out.deep_view() =~= all.take(i + 1).filter_map(yarn_line()));
        i = i + 1;
    }
    assert(all.take(i as int) =~= all);
    out
}

/// Name and version on the two sides of the last `@`.
pub open spec fn at_spec(spec: Seq<char>) -> Option<(Seq<char>, Seq<char>)> {
    let k = after_last(spec, '@');
    if k > 1 && k < spec.len() {
        Some((spec.take(k - 1), spec.skip(k as int)))
    } else {
        None
    }
}

/// What an entry under `packages` in a `bun.lock` names: the first item of its list.
pub open spec fn bun_package() -> spec_fn((Seq<char>, DocView)) -> Option<(Seq<char>, Seq<char>)> {
    |e: (Seq<char>, DocView)|
        match list_of(Some(e.1)) {
            Some(items) => if items.len() > 0 {
                match text_of(Some(items[0])) {
                    Some(spec) => at_spec(spec),
                    None => None,
                }
            } else {
                None
            },
            None => None,
        }
}

/// The packages that a `bun.lock` lists.
pub open spec fn bun_packages(d: DocView) -> Seq<(Seq<char>, Seq<char>)> {
    match table_of(field(d, "packages"@)) {
        Some(entries) => entries.filter_map(bun_package()),
        None => seq![],
    }
}

fn bun_entry(val: &Doc) -> (r: Option<(String, String)>)
    ensures
        forall|key: Seq<char>| r.deep_view() == #[trigger] bun_package()((key, val@)),
{
    match val.as_list() {
        Some(items) => {
            assert(items.deep_view().len() == items.len());
            if items.len() == 0 {
                return None;
            }
            assert(items.deep_view()[0] == items@[0]@);
            match items[0].as_str() {
                Some(spec) => {
                    let c = chars_of(spec);
                    let k = find_last(c.as_slice(), '@');
                    if k > 1 && k < c.len() {
                        let name = slice_subrange(c.as_slice(), 0, k - 1);
                        let version = slice_subrange(c.as_slice(), k, c.len());
                        assert(name@ =~= spec@.take(k - 1));
                        assert(version@ =~= spec@.skip(k as int));
                        Some((string_of(name), string_of(version)))
                    } else {
                        None
                    }
                },
                None => None,
            }
        },
        None => None,
    }
}

/// The packages that a parsed `bun.lock` lists under `packages`, each with its version.
pub fn bun_entries(d: &Doc) -> (r: Vec<(String, String)>)
    ensures
        r.deep_view() == bun_packages(d@),
{
    let mut out: Vec<(String, String)> = Vec::new();
    match d.entries("packages") {
        Some(entries) => {
            let ghost all = entries.deep_view();
            let mut i: usize = 0;
            proof {
                lemma_filter_map_start(all, bun_package());
                assert(out.deep_view() =~= all.take(0).filter_map(bun_package()));
            }
            while i < entries.len()
                invariant
                    i <= entries.len(),
                    all == entries.deep_view(),
                    out.deep_view() == all.take(i as int).filter_map(bun_package()),
                decreases entries.len() - i,
            {
                proof {
                    assert(all[i as int] == (entries@[i as int].0@, entries@[i as int].1@));
                    all.lemma_filter_map_take_succ(bun_package(), i as int);
                }
                let ghost was = out.deep_view();
                let e = bun_entry(&entries[i].1);
                assert(e.deep_view() == bun_package()(all[i as int]));
                if let Some(p) = e {
                    out.push(p);
                    assert(out.deep_view() =~= was.push(p.deep_view()));
                }
                assert(out.deep_view() =~= all.take(i + 1).filter_map(bun_package()));
                i = i + 1;
            }
            assert(all.take(i as int) =~= all);
            out
        },
        None => {
            assert(out.deep_view() =~= seq![]);
            out
        },
    }
}

/// A line with its end, unless it is a comment.
pub open spec fn uncommented_line() -> spec_fn(Seq<char>) -> Seq<char> {
    |line: Seq<char>|
        if starts(trim_start(line), "//"@) {
            seq![]
        } else {
            line + seq!['\n']
        }
}

/// A text without the lines that are `//` comments; each line that stays ends in a line feed.
pub fn strip_line_comments(text: &str) -> (r: String)
    ensures
        r@ == flat(lines(text@), uncommented_line()),
{
    let l = lines_of(text);
    let ghost all = l.deep_view();
    let mut out = String::new();
    let mut i: usize = 0;
    proof {
        lemma_flat_start(all, uncommented_line());
        assert(out@ =~= flat(all.take(0), uncommented_line()));
    }
    while i < l.len()
        invariant
            i <= l.len(),
            all == l.deep_view(),
            out@ == flat(all.take(i as int), uncommented_line()),
        decreases l.len() - i,
    {
        proof {
            assert(all[i as int] == l@[i as int]@);
            lemma_flat_step(all, uncommented_line(), i as int);
        }
        let ghost was = out@;
        let c = chars_of(l[i].as_str());
        if !starts_with(trimmed_start(c.as_slice()), "//") {
            out.append(l[i].as_str());
            out.push('\n');
        }
        assert(out@ =~= was + uncommented_line()(all[i as int]));
        i = i + 1;
    }
    assert(all.take(i as int) =~= all);
    out
}

/// The document in a text that may hold comment lines.
pub open spec fn commented_json(text: Seq<char>) -> Option<DocView> {
    match json_document(text) {
        Some(d) => Some(d),
        None => json_document(flat(lines(text), uncommented_line())),
    }
}

/// The packages that the text of a `bun.lock` lists. Where it is no JSON as it stands, it is read
/// without its comment lines.
pub fn bun_lock(text: &str) -> (r: Vec<(String, String)>)
    ensures
        r.deep_view() == (match commented_json(text@) {
            Some(d) => bun_packages(d),
            None => seq![],
        }),
{
    let json = match parse_json(text) {
        Some(d) => Some(d),
        None => parse_json(strip_line_comments(text).as_str()),
    };
    match json {
        Some(d) => bun_entries(&d),
        None => {
            let r: Vec<(String, String)> = Vec::new();
            assert(r.deep_view() =~= seq![]);
            r
        },
    }
}

/// The number that a character of the base64 alphabet stands for.
pub open spec fn sextet(c: char) -> Option<u8> {
    if 'A' <= c <= 'Z' {
        Some((c as u8 - 65) as u8)
    } else if 'a' <= c <= 'z' {
        Some((c as u8 - 71) as u8)
    } else if '0' <= c <= '9' {
        Some((c as u8 + 4) as u8)
    } else if c == '+' {
        Some(62)
    } else if c == '/' {
        Some(63)
    } else {
        None
    }
}

/// Padding and white space, which base64 text may hold anywhere.
pub open spec fn base64_filler(c: char) -> bool {
    c == '=' || c == ' ' || c == '\t' || c == '\n' || c == '\u{c}' || c == '\r'
}

/// What the numbers of a base64 text stand for, as a function.
pub open spec fn sextets() -> spec_fn(char) -> Option<u8> {
    |c: char| sextet(c)
}

/// The bytes that numbers of six bits make: three of four, and of what is left at the end the
/// bytes that are whole.
pub open spec fn packed(v: Seq<u8>) -> Seq<u8>
    decreases v.len(),
{
    if v.len() < 2 {
        seq![]
    } else if v.len() == 2 {
        seq![(v[0] * 4 + v[1] / 16) as u8]
    } else if v.len() == 3 {
        seq![(v[0] * 4 + v[1] / 16) as u8, (v[1] % 16 * 16 + v[2] / 4) as u8]
    } else {
        seq![
            (v[0] * 4 + v[1] / 16) as u8,
            (v[1] % 16 * 16 + v[2] / 4) as u8,
            (v[2] % 4 * 64 + v[3]) as u8,
        ] + packed(v.skip(4))
    }
}

/// The bytes that a base64 text stands for; nothing where it holds anything else.
pub open spec fn base64_bytes(s: Seq<char>) -> Option<Seq<u8>> {
    if forall|i: int| 0 <= i < s.len() ==> base64_filler(#[trigger] s[i]) || sextet(s[i]) is Some {
        Some(packed(s.filter_map(sextets())))
    } else {
        None
    }
}

fn sextet_of(c: char) -> (r: Option<u8>)
    ensures
        r == sextet(c),
        r is Some ==> r->0 < 64,
{
    if 'A' <= c && c <= 'Z' {
        Some(c as u8 - 65)
    } else if 'a' <= c && c <= 'z' {
        Some(c as u8 - 71)
    } else if '0' <= c && c <= '9' {
        Some(c as u8 + 4)
    } else if c == '+' {
        Some(62)
    } else if c == '/' {
        Some(63)
    } else {
        None
    }
}

fn pack(v: &Vec<u8>) -> (r: Vec<u8>)
    requires
        forall|i: int| 0 <= i < v@.len() ==> #[trigger] v@[i] < 64,
    ensures
        r@ == packed(v@),
{
    let mut out: Vec<u8> = Vec::new();
    let mut i: usize = 0;
    proof {
        assert(v@.skip(0) =~= v@);
        assert(out@ + packed(v@) =~= packed(v@));
    }
    while v.len() - i >= 4
        invariant
            i <= v.len(),
            forall|i: int| 0 <= i < v@.len() ==> #[trigger] v@[i] < 64,
            out@ + packed(v@.skip(i as int)) == packed(v@),
        decreases v.len() - i,
    {
        let ghost was = out@;
        let ghost now = v@.skip(i as int);
        let a = v[i] * 4 + v[i + 1] / 16;
        let b = v[i + 1] % 16 * 16 + v[i + 2] / 4;
        let c = v[i + 2] % 4 * 64 + v[i + 3];
        out.push(a);
        out.push(b);
        out.push(c);
        proof {
            assert(now.skip(4) =~= v@.skip(i + 4));
            assert(out@ + packed(now.skip(4)) =~= was + packed(now));
        }
        i = i + 4;
    }
    let ghost was = out@;
    let ghost now = v@.skip(i as int);
    if v.len() - i >= 2 {
        let a = v[i] * 4 + v[i + 1] / 16;
        out.push(a);
        if v.len() - i >= 3 {
            let b = v[i + 1] % 16 * 16 + v[i + 2] / 4;
            out.push(b);
        }
    }
    assert(out@ =~= was + packed(now));
    out
}

/// The bytes that a base64 text stands for; nothing where it holds a character that is neither of
/// the alphabet nor padding nor white space.
pub fn decode_base64(s: &str) -> (r: Option<Vec<u8>>)
    ensures
        r is Some <==> base64_bytes(s@) is Some,
        r is Some ==> r->0@ == base64_bytes(s@)->0,
{
    let c = chars_of(s);
    let mut v: Vec<u8> = Vec::new();
    let mut i: usize = 0;
    proof {
        lemma_filter_map_start(c@, sextets());
        assert(v@ =~= c@.take(0).filter_map(sextets()));
    }
    while i < c.len()
        invariant
            i <= c.len(),
            c@ == s@,
            v@ == c@.take(i as int).filter_map(sextets()),
            forall|j: int| 0 <= j < v@.len() ==> #[trigger] v@[j] < 64,
            forall|j: int| 0 <= j < i ==> base64_filler(#[trigger] s@[j]) || sextet(s@[j]) is Some,
        decreases c.len() - i,
    {
        let x = c[i];
        proof {
            assert(s@[i as int] == x);
            c@.lemma_filter_map_take_succ(sextets(), i as int);
        }
        let ghost was = v@;
        match sextet_of(x) {
            Some(n) => {
                v.push(n);
                assert(v@ =~= was.push(n));
            },
            None => {
                if !(x == '=' || x == ' ' || x == '\t' || x == '\n' || x == '\u{c}' || x == '\r') {
                    return None;
                }
            },
        }
        assert(v@ =~= c@.take(i + 1).filter_map(sextets()));
        i = i + 1;
    }
    assert(c@.take(i as int) =~= c@);
    Some(pack(&v))
}

/// The digit of a number below sixteen.
pub open spec fn hex_char(n: u8) -> char {
    if n < 10 {
        (n + 48) as u8 as char
    } else {
        (n + 87) as u8 as char
    }
}

/// The two digits of a byte.
pub open spec fn hex_pair() -> spec_fn(u8) -> Seq<char> {
    |b: u8| seq![hex_char(b / 16), hex_char(b % 16)]
}

fn hex_of(n: u8) -> (r: char)
    requires
        n < 16,
    ensures
        r == hex_char(n),
{
    if n < 10 {
        (n + 48) as char
    } else {
        (n + 87) as char
    }
}

/// Bytes as hexadecimal digits, two for each.
pub fn hex_encode(bytes: &[u8]) -> (r: String)
    ensures
        r@ == flat(bytes@, hex_pair()),
        r@.len() == 2 * bytes@.len(),
{
    let mut out = String::new();
    let mut i: usize = 0;
    proof {
        lemma_flat_start(bytes@, hex_pair());
        assert(out@ =~= flat(bytes@.take(0), hex_pair()));
    }
    while i < bytes.len()
        invariant
            i <= bytes.len(),
            out@ == flat(bytes@.take(i as int), hex_pair()),
            out@.len() == 2 * i,
        decreases bytes.len() - i,
    {
        proof {
            lemma_flat_step(bytes@, hex_pair(), i as int);
        }
        let ghost was = out@;
        let b = bytes[i];
        out.push(hex_of(b / 16));
        out.push(hex_of(b % 16));
        assert(out@ =~= was + hex_pair()(b));
        i = i + 1;
    }
    assert(bytes@.take(i as int) =~= bytes@);
    out
}

/// Where npm keeps what an `integrity` value names: the digest in three parts, of two digits, of
/// two, and the rest.
pub open spec fn shard(integrity: Seq<char>) -> Option<(Seq<char>, Seq<char>, Seq<char>)> {
    match without_prefix(integrity, "sha512-"@) {
        Some(b64) => match base64_bytes(b64) {
            Some(bytes) => {
                let hex = flat(bytes, hex_pair());
                if hex.len() < 4 {
                    None
                } else {
                    Some((hex.subrange(0, 2), hex.subrange(2, 4), hex.skip(4)))
                }
            },
            None => None,
        },
        None => None,
    }
}

/// Where npm keeps what an `integrity` value of the form `sha512-<base64>` names: the digest in
/// hexadecimal digits, split into the first two, the next two, and the rest.
pub fn npm_integrity_to_shard(integrity: &str) -> (r: Option<(String, String, String)>)
    ensures
        r.deep_view() == shard(integrity@),
{
    let c = chars_of(integrity);
    match strip_prefix(c.as_slice(), "sha512-") {
        Some(b64) => match decode_base64(string_of(b64).as_str()) {
            Some(bytes) => {
                let hex = hex_encode(bytes.as_slice());
                let h = chars_of(hex.as_str());
                if h.len() < 4 {
                    return None;
                }
                let rest = slice_subrange(h.as_slice(), 4, h.len());
                assert(rest@ =~= h@.skip(4));
                Some(
                    (
                        string_of(slice_subrange(h.as_slice(), 0, 2)),
                        string_of(slice_subrange(h.as_slice(), 2, 4)),
                        string_of(rest),
                    ),
                )
            },
            None => None,
        },
        None => None,
    }
}

/// A package of a `Cargo.lock`.
#[derive(Clone, Debug, PartialEq, Eq)]
pub struct LockPackage {
    pub name: String,
    pub version: String,
    pub source: Option<String>,
}

/// A package of a `Cargo.lock`, as a value.
#[verifier::ext_equal]
pub struct LockPackageView {
    pub name: Seq<char>,
    pub version: Seq<char>,
    pub source: Option<Seq<char>>,
}

impl DeepView for LockPackage {
    type V = LockPackageView;

    open spec fn deep_view(&self) -> LockPackageView {
        LockPackageView {
            name: self.name@,
            version: self.version@,
            source: self.source.deep_view(),
        }
    }
}

/// What a `Cargo.lock` has said so far of the package whose block is open.
#[verifier::ext_equal]
pub struct LockState {
    pub name: Option<Seq<char>>,
    pub version: Option<Seq<char>>,
    pub source: Option<Seq<char>>,
    pub open: bool,
}

impl LockState {
    /// The package, where its name and its version are known.
    pub open spec fn package(self) -> Seq<LockPackageView> {
        match (self.name, self.version) {
            (Some(name), Some(version)) => seq![
                LockPackageView { name, version, source: self.source },
            ],
            _ => seq![],
        }
    }
}

/// No package yet; whether a block is open.
pub open spec fn lock_start(open: bool) -> LockState {
    LockState { name: None, version: None, source: None, open }
}

/// What is known behind a further line of the block.
pub open spec fn lock_line(s: LockState, t: Seq<char>) -> LockState {
    if value_in(t, "name"@) is Some {
        LockState { name: value_in(t, "name"@), ..s }
    } else if value_in(t, "version"@) is Some {
        LockState { version: value_in(t, "version"@), ..s }
    } else if value_in(t, "source"@) is Some {
        LockState { source: value_in(t, "source"@), ..s }
    } else {
        s
    }
}

/// The packages in the lines of a `Cargo.lock`, from a state on.
pub open spec fn lock_packages(l: Seq<Seq<char>>, s: LockState) -> Seq<LockPackageView>
    decreases l.len(),
{
    if l.len() == 0 {
        s.package()
    } else {
        let t = trim(l[0]);
        if t == "[[package]]"@ {
            s.package() + lock_packages(l.skip(1), lock_start(true))
        } else if !s.open {
            lock_packages(l.skip(1), s)
        } else {
            lock_packages(l.skip(1), lock_line(s, t))
        }
    }
}

pub(crate) fn put_package(
    out: &mut Vec<LockPackage>,
    name: Option<String>,
    version: Option<String>,
    source: Option<String>,
)
    ensures
        final(out).deep_view() == old(out).deep_view() + (LockState {
            name: name.deep_view(),
            version: version.deep_view(),
            source: source.deep_view(),
            open: true,
        }).package(),
{
    let ghost was = out.deep_view();
    let ghost s = LockState {
        name: name.deep_view(),
        version: version.deep_view(),
        source: source.deep_view(),
        open: true,
    };
    match (name, version) {
        (Some(name), Some(version)) => {
            let p = LockPackage { name, version, source };
            out.push(p);
            assert(out.deep_view() =~= was.push(p.deep_view()));
            assert(out.deep_view() =~= was + s.package());
        },
        _ => {
            assert(out.deep_view() =~= was + s.package());
        },
    }
}

/// The packages of a `Cargo.lock`: the blocks that give a name and a version.
pub fn parse_cargo_lock(text: &str) -> (r: Vec<LockPackage>)
    ensures
        r.deep_view() == lock_packages(lines(text@), lock_start(false)),
{
    let l = lines_of(text);
    let ghost all = lines(text@);
    let ghost want = lock_packages(all, lock_start(false));
    let mut out: Vec<LockPackage> = Vec::new();
    let mut name: Option<String> = None;
    let mut version: Option<String> = None;
    let mut source: Option<String> = None;
    let mut open = false;
    let mut i: usize = 0;
    proof {
        assert(all.skip(0) =~= all);
        assert(out.deep_view() + want =~= want);
    }
    while i < l.len()
        invariant
            i <= l.len(),
            all == l.deep_view(),
            out.deep_view() + lock_packages(
                all.skip(i as int),
                (LockState {
                    name: name.deep_view(),
                    version: version.deep_view(),
                    source: source.deep_view(),
                    open,
                }),
            ) == want,
        decreases l.len() - i,
    {
        let ghost was = out.deep_view();
        let ghost now = all.skip(i as int);
        let ghost s = LockState {
            name: name.deep_view(),
            version: version.deep_view(),
            source: source.deep_view(),
            open,
        };
        proof {
            assert(now[0] == l@[i as int]@);
            assert(now.skip(1) =~= all.skip(i + 1));
        }
        let c = chars_of(l[i].as_str());
        let t = string_of(trimmed(c.as_slice()));
        if same(t.as_str(), "[[package]]") {
            put_package(&mut out, name, version, source);
            name = None;
            version = None;
            source = None;
            open = true;
            proof {
                let rest = lock_packages(all.skip(i + 1), lock_start(true));
                assert(out.deep_view() + rest =~= was + (s.package() + rest));
            }
        } else if open {
            let n = key_value_field(t.as_str(), "name");
            if n.is_some() {
                name = n;
            } else {
                let v = key_value_field(t.as_str(), "version");
                if v.is_some() {
                    version = v;
                } else {
                    let o = key_value_field(t.as_str(), "source");
                    if o.is_some() {
                        source = o;
                    }
                }
            }
        }
        i = i + 1;
    }
    put_package(&mut out, name, version, source);
    out
}

/// A package that comes from a registry.
pub open spec fn registry_key() -> spec_fn(LockPackageView) -> Option<KeyView> {
    |p: LockPackageView|
        match p.source {
            Some(s) => if s.len() > 0 && !starts(s, "git+"@) {
                Some(KeyView { name: p.name, version: p.version, extra: None })
            } else {
                None
            },
            None => None,
        }
}

/// What stands before the first `c`, or everything.
pub open spec fn up_to(s: Seq<char>, c: char) -> Seq<char> {
    s.take(index_of(s, c) as int)
}

/// What stands behind the last `c`, or everything.
pub open spec fn behind_last(s: Seq<char>, c: char) -> Seq<char> {
    s.skip(after_last(s, c) as int)
}

/// A text without this suffix, if it has it.
pub open spec fn off_suffix(s: Seq<char>, p: Seq<char>) -> Seq<char> {
    match without_suffix(s, p) {
        Some(t) => t,
        None => s,
    }
}

/// The name of a repository, from `url?query#revision`.
pub open spec fn repo_basename(url: Seq<char>) -> Option<Seq<char>> {
    let name = off_suffix(behind_last(up_to(up_to(url, '#'), '?'), '/'), ".git"@);
    if name.len() > 0 {
        Some(name)
    } else {
        None
    }
}

/// A package that comes from a repository, with the repository's name.
pub open spec fn git_key() -> spec_fn(LockPackageView) -> Option<KeyView> {
    |p: LockPackageView|
        match p.source {
            Some(s) => match without_prefix(s, "git+"@) {
                Some(url) => match repo_basename(url) {
                    Some(b) => Some(KeyView { name: p.name, version: p.version, extra: Some(b) }),
                    None => None,
                },
                None => None,
            },
            None => None,
        }
}

/// The packages of a `Cargo.lock` that come from a registry.
pub fn cargo_lock_registry(text: &str) -> (r: Vec<Key>)
    ensures
        r.deep_view() == lock_packages(lines(text@), lock_start(false)).filter_map(registry_key()),
{
    let packages = parse_cargo_lock(text);
    let ghost all = packages.deep_view();
    let mut out: Vec<Key> = Vec::new();
    let mut i: usize = 0;
    proof {
        lemma_filter_map_start(all, registry_key());
        assert(out.deep_view() =~= all.take(0).filter_map(registry_key()));
    }
    while i < packages.len()
        invariant
            i <= packages.len(),
            all == packages.deep_view(),
            out.deep_view() == all.take(i as int).filter_map(registry_key()),
        decreases packages.len() - i,
    {
        let p = &packages[i];
        proof {
            assert(all[i as int] == p.deep_view());
            all.lemma_filter_map_take_succ(registry_key(), i as int);
        }
        if let Some(s) = &p.source {
            let c = chars_of(s.as_str());
            if c.len() > 0 && !starts_with(c.as_slice(), "git+") {
                put_key(
                    &mut out,
                    Key { name: p.name.clone(), version: p.version.clone(), extra: None },
                );
            }
        }
        assert(out.deep_view() =~= all.take(i + 1).filter_map(registry_key()));
        i = i + 1;
    }
    assert(all.take(i as int) =~= all);
    out
}

fn front_up_to<'a>(s: &'a [char], c: char) -> (r: &'a [char])
    ensures
        r@ == up_to(s@, c),
{
    let k = find_char(s, c);
    let r = slice_subrange(s, 0, k);
    assert(r@ =~= s@.take(k as int));
    r
}

fn tail_behind<'a>(s: &'a [char], c: char) -> (r: &'a [char])
    ensures
        r@ == behind_last(s@, c),
{
    let k = find_last(s, c);
    let r = slice_subrange(s, k, s.len());
    assert(r@ =~= s@.skip(k as int));
    r
}

/// The name of a repository, from `url?query#revision`: the last part of the path, without `.git`.
pub fn git_repo_basename(url: &str) -> (r: Option<String>)
    ensures
        r.deep_view() == repo_basename(url@),
{
    let c = chars_of(url);
    let name = tail_behind(front_up_to(front_up_to(c.as_slice(), '#'), '?'), '/');
    let name = match strip_suffix(name, ".git") {
        Some(n) => n,
        None => name,
    };
    if name.len() > 0 {
        Some(string_of(name))
    } else {
        None
    }
}

/// The packages of a `Cargo.lock` that come from a repository, each with the repository's name.
pub fn cargo_lock_git(text: &str) -> (r: Vec<Key>)
    ensures
        r.deep_view() == lock_packages(lines(text@), lock_start(false)).filter_map(git_key()),
{
    let packages = parse_cargo_lock(text);
    let ghost all = packages.deep_view();
    let mut out: Vec<Key> = Vec::new();
    let mut i: usize = 0;
    proof {
        lemma_filter_map_start(all, git_key());
        assert(out.deep_view() =~= all.take(0).filter_map(git_key()));
    }
    while i < packages.len()
        invariant
            i <= packages.len(),
            all == packages.deep_view(),
            out.deep_view() == all.take(i as int).filter_map(git_key()),
        decreases packages.len() - i,
    {
        let p = &packages[i];
        proof {
            assert(all[i as int] == p.deep_view());
            all.lemma_filter_map_take_succ(git_key(), i as int);
        }
        if let Some(s) = &p.source {
            let c = chars_of(s.as_str());
            if let Some(url) = strip_prefix(c.as_slice(), "git+") {
                if let Some(b) = git_repo_basename(string_of(url).as_str()) {
                    put_key(
                        &mut out,
                        Key { name: p.name.clone(), version: p.version.clone(), extra: Some(b) },
                    );
                }
            }
        }
        assert(out.deep_view() =~= all.take(i + 1).filter_map(git_key()));
        i = i + 1;
    }
    assert(all.take(i as int) =~= all);
    out
}

/// The value of `default_toolchain` in rustup's settings.
pub fn default_toolchain(text: &str) -> (r: Option<String>)
    ensures
        r.deep_view() == first_some(lines(text@), line_value("default_toolchain"@)),
{
    first_key_value(text, "default_toolchain")
}

/// Characters that end a value in a shell command.
pub open spec fn in_shell_word() -> spec_fn(char) -> bool {
    |c: char| !(is_space(c) || c == ';' || c == '&' || c == '|')
}

/// The default in `${NAME:-default}`; any other value stays.
pub open spec fn shell_default(value: Seq<char>) -> Seq<char> {
    match without_prefix(value, "${"@) {
        Some(v) => match without_suffix(v, "}"@) {
            Some(v) => match find_sub(v, ":-"@) {
                Some(i) => v.skip(i + ":-"@.len()),
                None => value,
            },
            None => value,
        },
        None => value,
    }
}

/// A value without quotation marks around it.
pub open spec fn unquoted(s: Seq<char>) -> Seq<char> {
    trim_where(trim_where(s, just('"')), just('\''))
}

/// Where the quotation mark in front of a value is closed again.
pub open spec fn word_quote(s: Seq<char>) -> Option<int> {
    if s.len() > 0 && (s[0] == '"' || s[0] == '\'') && has_char(s.skip(1), s[0]) {
        Some(1 + index_of(s.skip(1), s[0]) as int)
    } else {
        None
    }
}

/// Where a value in a shell command ends: between quotation marks nothing ends it.
pub open spec fn shell_word_end(s: Seq<char>) -> int {
    match word_quote(s) {
        Some(k) => k + 1 + span(s.skip(k + 1), in_shell_word()),
        None => span(s, in_shell_word()) as int,
    }
}

/// The value in front of a shell command, without its quotation marks.
pub open spec fn shell_word(s: Seq<char>) -> Seq<char> {
    match word_quote(s) {
        Some(k) => unquoted(s.subrange(1, k) + s.subrange(k + 1, shell_word_end(s))),
        None => unquoted(s.take(shell_word_end(s))),
    }
}

/// A value ends within the text, and behind the quotation mark that closes it.
pub proof fn lemma_shell_word_end(s: Seq<char>)
    ensures
        0 <= shell_word_end(s) <= s.len(),
        word_quote(s) is Some ==> 1 <= word_quote(s)->0 < shell_word_end(s),
{
    lemma_span(s, in_shell_word());
    if let Some(k) = word_quote(s) {
        lemma_span(s.skip(k + 1), in_shell_word());
    }
}

/// The values that a text gives `CARGO_TARGET_DIR`.
pub open spec fn target_dirs(s: Seq<char>) -> Seq<Seq<char>>
    decreases s.len(),
{
    proof {
        lemma_find_from(s, "CARGO_TARGET_DIR="@, 0);
        reveal_strlit("CARGO_TARGET_DIR=");
        lemma_shell_word_end(
            s.skip(find_sub(s, "CARGO_TARGET_DIR="@)->0 + "CARGO_TARGET_DIR="@.len()),
        );
    }
    match find_sub(s, "CARGO_TARGET_DIR="@) {
        Some(i) => {
            let after = s.skip(i + "CARGO_TARGET_DIR="@.len());
            let n = shell_word_end(after);
            let raw = shell_word(after);
            (if raw.len() > 0 {
                seq![shell_default(raw)]
            } else {
                seq![]
            }) + target_dirs(after.skip(n))
        },
        None => seq![],
    }
}

pub(crate) fn unwrap_shell_default(value: &[char]) -> (r: String)
    ensures
        r@ == shell_default(value@),
{
    if let Some(v) = strip_prefix(value, "${") {
        if let Some(v) = strip_suffix(v, "}") {
            if let Some(i) = find_text(v, ":-", 0) {
                let p = chars_of(":-");
                let n = v.len();
                assert(i + p@.len() <= n);
                let rest = slice_subrange(v, i + p.len(), n);
                assert(rest@ =~= v@.skip(i + ":-"@.len()));
                return string_of(rest);
            }
        }
    }
    string_of(value)
}

/// How many characters that do not end a value stand in front.
fn plain_end(s: &[char]) -> (r: usize)
    ensures
        r == span(s@, in_shell_word()),
        r <= s@.len(),
{
    let mut n: usize = 0;
    while n < s.len() && !(space_char(s[n]) || s[n] == ';' || s[n] == '&' || s[n] == '|')
        invariant
            n <= s@.len(),
            forall|j: int| 0 <= j < n ==> in_shell_word()(#[trigger] s@[j]),
        decreases s@.len() - n,
    {
        n = n + 1;
    }
    proof {
        lemma_span_is(s@, in_shell_word(), n as nat);
    }
    n
}

/// Where the value in front ends, and the value without the quotation marks that open and close it.
fn read_shell_word(s: &[char]) -> (r: (usize, Vec<char>))
    ensures
        r.0 == shell_word_end(s@),
        r.0 <= s@.len(),
        unquoted(r.1@) == shell_word(s@),
{
    let len = s.len();
    if len > 0 && (s[0] == '"' || s[0] == '\'') {
        let inner = slice_subrange(s, 1, len);
        assert(inner@ =~= s@.skip(1));
        let k = find_char(inner, s[0]);
        if k < inner.len() {
            let behind = slice_subrange(s, k + 2, len);
            assert(behind@ =~= s@.skip(k + 2));
            let n = plain_end(behind);
            let mut word: Vec<char> = Vec::new();
            word.extend_from_slice(slice_subrange(s, 1, k + 1));
            word.extend_from_slice(slice_subrange(behind, 0, n));
            assert(word@ =~= s@.subrange(1, k + 1) + s@.subrange(k + 2, k + 2 + n));
            return (k + 2 + n, word);
        }
    }
    let n = plain_end(s);
    let mut word: Vec<char> = Vec::new();
    word.extend_from_slice(slice_subrange(s, 0, n));
    assert(word@ =~= s@.take(n as int));
    (n, word)
}

/// The values that a text gives `CARGO_TARGET_DIR`, whatever quotation marks stand around them. Of
/// a value that only stands in when the variable is not set, the default counts.
pub fn extract_cargo_target_dir(text: &str) -> (r: Vec<String>)
    ensures
        r.deep_view() == target_dirs(text@),
{
    let c = chars_of(text);
    let key = chars_of("CARGO_TARGET_DIR=");
    let mut rest: &[char] = c.as_slice();
    let mut out: Vec<String> = Vec::new();
    assert(out.deep_view() + target_dirs(text@) =~= target_dirs(text@));
    loop
        invariant
            key@ == "CARGO_TARGET_DIR="@,
            out.deep_view() + target_dirs(rest@) == target_dirs(text@),
        ensures
            out.deep_view() == target_dirs(text@),
        decreases rest@.len(),
    {
        let ghost was = out.deep_view();
        let ghost s = rest@;
        proof {
            reveal_strlit("CARGO_TARGET_DIR=");
        }
        match find_text(rest, "CARGO_TARGET_DIR=", 0) {
            Some(i) => {
                let len = rest.len();
                assert(i + key@.len() <= len);
                let after = slice_subrange(rest, i + key.len(), len);
                assert(after@ =~= s.skip(i + "CARGO_TARGET_DIR="@.len()));
                let (n, word) = read_shell_word(after);
                let raw = trimmed_char(trimmed_char(word.as_slice(), '"'), '\'');
                if raw.len() > 0 {
                    put_text(&mut out, unwrap_shell_default(raw));
                }
                rest = slice_subrange(after, n, after.len());
                proof {
                    assert(rest@ =~= after@.skip(n as int));
                    assert(out.deep_view() + target_dirs(rest@) =~= was + target_dirs(s));
                }
            },
            None => {
                assert(target_dirs(s) =~= seq![]);
                assert(was + target_dirs(s) =~= was);
                break;
            },
        }
    }
    out
}

/// The values that a script gives `CARGO_TARGET_DIR`.
pub open spec fn script_dirs() -> spec_fn((Seq<char>, DocView)) -> Seq<Seq<char>> {
    |e: (Seq<char>, DocView)|
        match text_of(Some(e.1)) {
            Some(s) => target_dirs(s),
            None => seq![],
        }
}

/// The values that the scripts of a `package.json` give `CARGO_TARGET_DIR`.
pub open spec fn scripts_dirs(d: DocView) -> Seq<Seq<char>> {
    match table_of(field(d, "scripts"@)) {
        Some(entries) => flat(entries, script_dirs()),
        None => seq![],
    }
}

/// The values that the scripts of a parsed `package.json` give `CARGO_TARGET_DIR`.
pub fn target_dirs_in_scripts(d: &Doc) -> (r: Vec<String>)
    ensures
        r.deep_view() == scripts_dirs(d@),
{
    let mut out: Vec<String> = Vec::new();
    match d.entries("scripts") {
        Some(entries) => {
            let ghost all = entries.deep_view();
            let mut i: usize = 0;
            proof {
                lemma_flat_start(all, script_dirs());
                assert(out.deep_view() =~= flat(all.take(0), script_dirs()));
            }
            while i < entries.len()
                invariant
                    i <= entries.len(),
                    all == entries.deep_view(),
                    out.deep_view() == flat(all.take(i as int), script_dirs()),
                decreases entries.len() - i,
            {
                proof {
                    assert(all[i as int] == (entries@[i as int].0@, entries@[i as int].1@));
                    lemma_flat_step(all, script_dirs(), i as int);
                }
                let ghost was = out.deep_view();
                if let Some(s) = entries[i].1.as_str() {
                    put_texts(&mut out, extract_cargo_target_dir(s));
                }
                assert(out.deep_view() =~= was + script_dirs()(all[i as int]));
                i = i + 1;
            }
            assert(all.take(i as int) =~= all);
            out
        },
        None => {
            assert(out.deep_view() =~= seq![]);
            out
        },
    }
}

/// The values that the scripts in the text of a `package.json` give `CARGO_TARGET_DIR`.
pub fn cargo_target_dirs_in_package_json_scripts(text: &str) -> (r: Vec<String>)
    ensures
        r.deep_view() == (match json_document(text@) {
            Some(d) => scripts_dirs(d),
            None => seq![],
        }),
{
    match parse_json(text) {
        Some(d) => target_dirs_in_scripts(&d),
        None => {
            let r: Vec<String> = Vec::new();
            assert(r.deep_view() =~= seq![]);
            r
        },
    }
}

/// The `target-dir` under `build`.
pub open spec fn config_target_dir(d: DocView) -> Option<Seq<char>> {
    match field(d, "build"@) {
        Some(b) => text_field(b, "target-dir"@),
        None => None,
    }
}

/// The `target-dir` that the text of a `.cargo/config.toml` sets.
pub fn cargo_config_target_dir(text: &str) -> (r: Option<String>)
    ensures
        r.deep_view() == (match toml_document(text@) {
            Some(d) => config_target_dir(d),
            None => None,
        }),
{
    match parse_toml(text) {
        Some(d) => match d.get("build") {
            Some(b) => match b.text("target-dir") {
                Some(t) => Some(t.to_owned()),
                None => None,
            },
            None => None,
        },
        None => None,
    }
}

/// A value with the home directory put in for `${HOME}`, `$HOME` or `~` at its front.
pub open spec fn home_expanded(value: Seq<char>, home: Seq<Seq<char>>) -> Seq<char> {
    if starts(value, "${HOME}"@) {
        path_text(home) + value.skip("${HOME}"@.len() as int)
    } else if starts(value, "$HOME"@) {
        path_text(home) + value.skip("$HOME"@.len() as int)
    } else if starts(value, "~"@) {
        path_text(home) + value.skip("~"@.len() as int)
    } else {
        value
    }
}

/// The directory that a value names, from the project's root.
pub open spec fn target_dir(
    value: Seq<char>,
    home: Seq<Seq<char>>,
    root: Seq<Seq<char>>,
) -> Seq<Seq<char>> {
    let p = path_of(home_expanded(value, home));
    if is_absolute(p) {
        p
    } else {
        joined(root, p)
    }
}

/// The directory that a value names: the home directory is put in for `${HOME}`, `$HOME` or `~` at
/// its front, and a relative path counts from the project's root.
pub fn expand_target_dir(value: &str, home: &FilePath, project_root: &FilePath) -> (r: FilePath)
    ensures
        r@ == target_dir(value@, home@, project_root@),
{
    let c = chars_of(value);
    let h = home.text();
    let expanded = if let Some(rest) = strip_prefix(c.as_slice(), "${HOME}") {
        cat2(h.as_str(), string_of(rest).as_str())
    } else if let Some(rest) = strip_prefix(c.as_slice(), "$HOME") {
        cat2(h.as_str(), string_of(rest).as_str())
    } else if let Some(rest) = strip_prefix(c.as_slice(), "~") {
        cat2(h.as_str(), string_of(rest).as_str())
    } else {
        value.to_owned()
    };
    let p = FilePath::from_text(expanded.as_str());
    if p.is_absolute() {
        p
    } else {
        project_root.join(&p)
    }
}

/// The module that a line of a `go.sum` names.
pub open spec fn go_line(line: Seq<char>) -> Option<KeyView> {
    let w = words(line);
    if w.len() < 2 {
        None
    } else {
        let version = off_suffix(w[1], "/go.mod"@);
        if w[0].len() == 0 || version.len() == 0 {
            None
        } else {
            Some(KeyView { name: w[0], version, extra: None })
        }
    }
}

/// The modules that the lines name, each once.
pub open spec fn go_modules(l: Seq<Seq<char>>) -> Seq<KeyView>
    decreases l.len(),
{
    if l.len() == 0 {
        seq![]
    } else {
        match go_line(l.last()) {
            Some(k) => with_new(go_modules(l.drop_last()), k),
            None => go_modules(l.drop_last()),
        }
    }
}

fn go_entry(line: &str) -> (r: Option<Key>)
    ensures
        r.deep_view() == go_line(line@),
{
    let c = chars_of(line);
    match next_word(c.as_slice()) {
        Some((module, rest)) => match next_word(rest) {
            Some((raw, _)) => {
                proof {
                    assert(words(line@)[0] == module@);
                    assert(words(line@)[1] == words(rest@)[0]);
                    assert(words(line@).len() == words(rest@).len() + 1);
                }
                let version = match strip_suffix(raw, "/go.mod") {
                    Some(v) => v,
                    None => raw,
                };
                if module.len() == 0 || version.len() == 0 {
                    return None;
                }
                Some(Key { name: string_of(module), version: string_of(version), extra: None })
            },
            None => {
                assert(words(line@).len() == words(rest@).len() + 1);
                None
            },
        },
        None => None,
    }
}

fn same_opt(a: &Option<String>, b: &Option<String>) -> (r: bool)
    ensures
        r == (a.deep_view() == b.deep_view()),
{
    match (a, b) {
        (Some(x), Some(y)) => same(x.as_str(), y.as_str()),
        (None, None) => true,
        _ => false,
    }
}

fn holds_key(keys: &Vec<Key>, k: &Key) -> (r: bool)
    ensures
        r == keys.deep_view().contains(k@),
{
    let ghost all = keys.deep_view();
    let mut i: usize = 0;
    while i < keys.len()
        invariant
            i <= keys.len(),
            all == keys.deep_view(),
            forall|j: int| 0 <= j < i ==> #[trigger] all[j] != k@,
        decreases keys.len() - i,
    {
        assert(all[i as int] == keys@[i as int]@);
        if same(keys[i].name.as_str(), k.name.as_str()) && same(
            keys[i].version.as_str(),
            k.version.as_str(),
        ) && same_opt(&keys[i].extra, &k.extra) {
            assert(all[i as int] =~= k@);
            return true;
        }
        i = i + 1;
    }
    false
}

/// The modules that a `go.sum` names, each once; the line that ends in `/go.mod` names no further
/// one.
pub fn go_sum(text: &str) -> (r: Vec<Key>)
    ensures
        r.deep_view() == go_modules(lines(text@)),
{
    let l = lines_of(text);
    let ghost all = lines(text@);
    let mut out: Vec<Key> = Vec::new();
    let mut i: usize = 0;
    assert(out.deep_view() =~= go_modules(all.take(0)));
    while i < l.len()
        invariant
            i <= l.len(),
            all == l.deep_view(),
            out.deep_view() == go_modules(all.take(i as int)),
        decreases l.len() - i,
    {
        proof {
            assert(all.take(i + 1).drop_last() =~= all.take(i as int));
            assert(all.take(i + 1).last() == l@[i as int]@);
        }
        if let Some(k) = go_entry(l[i].as_str()) {
            if !holds_key(&out, &k) {
                put_key(&mut out, k);
            }
        }
        i = i + 1;
    }
    assert(all.take(i as int) =~= all);
    out
}

/// A character of a module path as the module cache writes it.
pub open spec fn escaped_char() -> spec_fn(char) -> Seq<char> {
    |c: char|
        if is_upper(c) {
            seq!['!', lower(c)]
        } else {
            seq![c]
        }
}

/// A module path as the module cache writes it: each capital letter as a `!` and the small letter.
pub fn escape_module_path(path: &str) -> (r: String)
    ensures
        r@ == flat(path@, escaped_char()),
{
    let c = chars_of(path);
    let mut out = String::new();
    let mut i: usize = 0;
    proof {
        lemma_flat_start(c@, escaped_char());
        assert(out@ =~= flat(c@.take(0), escaped_char()));
    }
    while i < c.len()
        invariant
            i <= c.len(),
            out@ == flat(c@.take(i as int), escaped_char()),
        decreases c.len() - i,
    {
        proof {
            lemma_flat_step(c@, escaped_char(), i as int);
        }
        let ghost was = out@;
        let x = c[i];
        if 'A' <= x && x <= 'Z' {
            out.push('!');
            out.push(lower_char(x));
        } else {
            out.push(x);
        }
        assert(out@ =~= was + escaped_char()(x));
        i = i + 1;
    }
    assert(c@.take(i as int) =~= c@);
    out
}

/// Where Go keeps the modules that it has downloaded.
pub open spec fn mod_cache(env: EnvView) -> Seq<Seq<char>> {
    if env.go_mod_cache is Some && env.go_mod_cache->0.len() > 0 {
        path_of(env.go_mod_cache->0)
    } else if env.go_path is Some && env.go_path->0.len() > 0 {
        child(path_of(env.go_path->0), "pkg/mod"@)
    } else {
        child(env.home, "go/pkg/mod"@)
    }
}

/// Where Go keeps the modules that it has downloaded: `GOMODCACHE`, else `pkg/mod` in `GOPATH`,
/// else `go/pkg/mod` in the home directory.
pub fn go_module_cache_dir(env: &ResolveEnv) -> (r: FilePath)
    ensures
        r@ == mod_cache(env@),
{
    if let Some(v) = &env.go_mod_cache {
        if !is_empty(v.as_str()) {
            return FilePath::from_text(v.as_str());
        }
    }
    if let Some(v) = &env.go_path {
        if !is_empty(v.as_str()) {
            return FilePath::from_text(v.as_str()).child("pkg/mod");
        }
    }
    env.home.child("go/pkg/mod")
}

/// A dependency that a `Package.resolved` lists.
#[derive(Clone, Debug, PartialEq, Eq)]
pub struct ResolvedPin {
    pub identity: String,
    pub location: String,
}

impl DeepView for ResolvedPin {
    type V = (Seq<char>, Seq<char>);

    open spec fn deep_view(&self) -> (Seq<char>, Seq<char>) {
        (self.identity@, self.location@)
    }
}

/// Whether the file has its first form.
pub open spec fn first_form(d: DocView) -> bool {
    signed_field(d, "version"@) is Some && signed_field(d, "version"@)->0 <= 1
}

/// A dependency, in the first form or a later one.
pub open spec fn pin_of(first: bool) -> spec_fn(DocView) -> Option<(Seq<char>, Seq<char>)> {
    |p: DocView|
        {
            let id = text_field(
                p,
                if first {
                    "package"@
                } else {
                    "identity"@
                },
            );
            let at = text_field(
                p,
                if first {
                    "repositoryURL"@
                } else {
                    "location"@
                },
            );
            if id is Some && at is Some {
                Some((id->0, at->0))
            } else {
                None
            }
        }
}

/// The list of dependencies: under `object` in the first form.
pub open spec fn pin_list(d: DocView) -> Option<Seq<DocView>> {
    if first_form(d) {
        match field(d, "object"@) {
            Some(o) => list_of(field(o, "pins"@)),
            None => None,
        }
    } else {
        list_of(field(d, "pins"@))
    }
}

/// The dependencies that a `Package.resolved` lists.
pub open spec fn pins_in(d: DocView) -> Seq<(Seq<char>, Seq<char>)> {
    match pin_list(d) {
        Some(pins) => pins.filter_map(pin_of(first_form(d))),
        None => seq![],
    }
}

fn read_pin(p: &Doc, first: bool) -> (r: Option<ResolvedPin>)
    ensures
        r.deep_view() == pin_of(first)(p@),
{
    let id = if first {
        p.text("package")
    } else {
        p.text("identity")
    };
    let at = if first {
        p.text("repositoryURL")
    } else {
        p.text("location")
    };
    match (id, at) {
        (Some(id), Some(at)) => Some(
            ResolvedPin { identity: id.to_owned(), location: at.to_owned() },
        ),
        _ => None,
    }
}

/// The dependencies that a parsed `Package.resolved` lists.
pub fn resolved_pins(d: &Doc) -> (r: Vec<ResolvedPin>)
    ensures
        r.deep_view() == pins_in(d@),
{
    let mut out: Vec<ResolvedPin> = Vec::new();
    let first = match d.signed("version") {
        Some(v) => v <= 1,
        None => false,
    };
    let pins = if first {
        match d.get("object") {
            Some(o) => o.list("pins"),
            None => None,
        }
    } else {
        d.list("pins")
    };
    match pins {
        Some(pins) => {
            let ghost all = pins.deep_view();
            let ghost pick = pin_of(first);
            let mut i: usize = 0;
            proof {
                lemma_filter_map_start(all, pick);
                assert(out.deep_view() =~= all.take(0).filter_map(pick));
            }
            while i < pins.len()
                invariant
                    i <= pins.len(),
                    all == pins.deep_view(),
                    pick == pin_of(first),
                    out.deep_view() == all.take(i as int).filter_map(pick),
                decreases pins.len() - i,
            {
                proof {
                    assert(all[i as int] == pins@[i as int]@);
                    all.lemma_filter_map_take_succ(pick, i as int);
                }
                let ghost was = out.deep_view();
                if let Some(p) = read_pin(&pins[i], first) {
                    out.push(p);
                    assert(out.deep_view() =~= was.push(p.deep_view()));
                }
                assert(out.deep_view() =~= all.take(i + 1).filter_map(pick));
                i = i + 1;
            }
            assert(all.take(i as int) =~= all);
            out
        },
        None => {
            assert(out.deep_view() =~= seq![]);
            out
        },
    }
}

/// The dependencies that the text of a `Package.resolved` lists, in its first form (under
/// `object`) or a later one.
pub fn package_resolved(text: &str) -> (r: Vec<ResolvedPin>)
    ensures
        r.deep_view() == (match json_document(text@) {
            Some(d) => pins_in(d),
            None => seq![],
        }),
{
    match parse_json(text) {
        Some(d) => resolved_pins(&d),
        None => {
            let r: Vec<ResolvedPin> = Vec::new();
            assert(r.deep_view() =~= seq![]);
            r
        },
    }
}

/// A text without any `.git` at its end.
pub open spec fn off_dot_gits(s: Seq<char>) -> Seq<char>
    decreases s.len(),
{
    proof {
        reveal_strlit(".git");
    }
    if ends(s, ".git"@) {
        off_dot_gits(s.take(s.len() - ".git"@.len()))
    } else {
        s
    }
}

/// What stands behind the last `/` or `:`.
pub open spec fn behind_slash_or_colon(s: Seq<char>) -> Seq<char> {
    behind_last(behind_last(s, '/'), ':')
}

/// The name that SwiftPM gives a repository's cache.
pub open spec fn swift_repo(url: Seq<char>) -> Option<Seq<char>> {
    let name = behind_slash_or_colon(off_dot_gits(trim_end_where(url, just('/'))));
    if name.len() > 0 {
        Some(name)
    } else {
        None
    }
}

/// The name that SwiftPM gives a repository's cache: the last part of its URL, without `.git` or
/// `/` at the end.
pub fn swiftpm_repo_basename(url: &str) -> (r: Option<String>)
    ensures
        r.deep_view() == swift_repo(url@),
{
    let c = chars_of(url);
    let t = trimmed_end_char(c.as_slice(), '/');
    let mut rest: &[char] = t;
    loop
        invariant
            off_dot_gits(rest@) == off_dot_gits(t@),
        ensures
            rest@ == off_dot_gits(t@),
        decreases rest@.len(),
    {
        proof {
            reveal_strlit(".git");
        }
        match strip_suffix(rest, ".git") {
            Some(r) => {
                rest = r;
            },
            None => {
                break;
            },
        }
    }
    let name = tail_behind(tail_behind(rest, '/'), ':');
    if name.len() > 0 {
        Some(string_of(name))
    } else {
        None
    }
}

/// What a line of a Brewfile asks for.
#[derive(Clone, Copy, Debug, PartialEq, Eq, Structural)]
pub enum BrewEntryKind {
    Formula,
    Cask,
}

impl DeepView for BrewEntryKind {
    type V = BrewEntryKind;

    open spec fn deep_view(&self) -> BrewEntryKind {
        *self
    }
}

/// What stands in quotation marks behind `keyword` and a space.
pub open spec fn directive(line: Seq<char>, keyword: Seq<char>) -> Option<Seq<char>> {
    match without_prefix(line, keyword) {
        Some(rest) => match without_prefix(rest, " "@) {
            Some(rest) => {
                let t = trim_start(rest);
                if t.len() > 0 && (t[0] == '"' || t[0] == '\'') {
                    before_char(t.skip(1), t[0])
                } else {
                    None
                }
            },
            None => None,
        },
        None => None,
    }
}

/// What stands in quotation marks behind `keyword`, where a space follows it: `brewfoo` is not
/// `brew`.
pub fn brewfile_directive(line: &str, keyword: &str) -> (r: Option<String>)
    ensures
        r.deep_view() == directive(line@, keyword@),
{
    let c = chars_of(line);
    match strip_prefix(c.as_slice(), keyword) {
        Some(rest) => match strip_prefix(rest, " ") {
            Some(rest) => {
                let t = trimmed_start(rest);
                if t.len() > 0 && (t[0] == '"' || t[0] == '\'') {
                    let after = slice_subrange(t, 1, t.len());
                    assert(after@ =~= t@.skip(1));
                    up_to_char(after, t[0])
                } else {
                    None
                }
            },
            None => None,
        },
        None => None,
    }
}

/// What a line of a Brewfile asks for, if anything.
pub open spec fn brew_line() -> spec_fn(Seq<char>) -> Option<(BrewEntryKind, Seq<char>)> {
    |line: Seq<char>|
        match directive(trim(line), "brew"@) {
            Some(name) => Some((BrewEntryKind::Formula, name)),
            None => match directive(trim(line), "cask"@) {
                Some(name) => Some((BrewEntryKind::Cask, name)),
                None => None,
            },
        }
}

fn brew_entry(line: &str) -> (r: Option<(BrewEntryKind, String)>)
    ensures
        r.deep_view() == brew_line()(line@),
{
    let c = chars_of(line);
    let t = string_of(trimmed(c.as_slice()));
    match brewfile_directive(t.as_str(), "brew") {
        Some(name) => Some((BrewEntryKind::Formula, name)),
        None => match brewfile_directive(t.as_str(), "cask") {
            Some(name) => Some((BrewEntryKind::Cask, name)),
            None => None,
        },
    }
}

/// The formulae and casks that a Brewfile asks for.
pub fn brewfile(text: &str) -> (r: Vec<(BrewEntryKind, String)>)
    ensures
        r.deep_view() == lines(text@).filter_map(brew_line()),
{
    let l = lines_of(text);
    let ghost all = l.deep_view();
    let mut out: Vec<(BrewEntryKind, String)> = Vec::new();
    let mut i: usize = 0;
    proof {
        lemma_filter_map_start(all, brew_line());
        assert(out.deep_view() =~= all.take(0).filter_map(brew_line()));
    }
    while i < l.len()
        invariant
            i <= l.len(),
            all == l.deep_view(),
            out.deep_view() == all.take(i as int).filter_map(brew_line()),
        decreases l.len() - i,
    {
        proof {
            assert(all[i as int] == l@[i as int]@);
            all.lemma_filter_map_take_succ(brew_line(), i as int);
        }
        let ghost was = out.deep_view();
        if let Some(e) = brew_entry(l[i].as_str()) {
            out.push(e);
            assert(out.deep_view() =~= was.push(e.deep_view()));
        }
        assert(out.deep_view() =~= all.take(i + 1).filter_map(brew_line()));
        i = i + 1;
    }
    assert(all.take(i as int) =~= all);
    out
}

/// The place of the first quotation mark from `i` on that no backslash stands before.
pub open spec fn closing_quote(s: Seq<char>, i: int) -> Option<int>
    decreases s.len() - i + 1,
{
    if i < 0 || i >= s.len() {
        None
    } else if s[i] == '\\' {
        closing_quote(s, i + 2)
    } else if s[i] == '"' {
        Some(i)
    } else {
        closing_quote(s, i + 1)
    }
}

/// A text with `\/` and `\\` resolved; other escapes stay.
pub open spec fn plain_json(s: Seq<char>) -> Seq<char>
    decreases s.len(),
{
    if s.len() == 0 {
        seq![]
    } else if s[0] != '\\' {
        seq![s[0]] + plain_json(s.skip(1))
    } else if s.len() == 1 {
        seq!['\\']
    } else if s[1] == '/' || s[1] == '\\' {
        seq![s[1]] + plain_json(s.skip(2))
    } else {
        seq!['\\', s[1]] + plain_json(s.skip(2))
    }
}

/// The value of the first `"cwd":"..."` in a text.
pub open spec fn cwd_in(text: Seq<char>) -> Option<Seq<char>> {
    match find_sub(text, "\"cwd\":\""@) {
        Some(i) => {
            let rest = text.skip(i + "\"cwd\":\""@.len());
            match closing_quote(rest, 0) {
                Some(end) => Some(plain_json(rest.take(end))),
                None => None,
            }
        },
        None => None,
    }
}

fn find_unescaped_quote(s: &[char]) -> (r: Option<usize>)
    ensures
        r is Some <==> closing_quote(s@, 0) is Some,
        r is Some ==> r->0 == closing_quote(s@, 0)->0 && r->0 < s@.len(),
{
    let mut i: usize = 0;
    while i < s.len()
        invariant
            closing_quote(s@, 0) == closing_quote(s@, i as int),
        decreases s.len() - i,
    {
        if s[i] == '\\' {
            if s.len() - i <= 1 {
                assert(closing_quote(s@, i + 2) is None);
                return None;
            }
            i = i + 2;
        } else if s[i] == '"' {
            return Some(i);
        } else {
            i = i + 1;
        }
    }
    None
}

fn unescape_json_minimal(s: &[char]) -> (r: String)
    ensures
        r@ == plain_json(s@),
{
    let mut out = String::new();
    let mut i: usize = 0;
    proof {
        assert(s@.skip(0) =~= s@);
        assert(out@ + plain_json(s@) =~= plain_json(s@));
    }
    while i < s.len()
        invariant
            i <= s.len(),
            out@ + plain_json(s@.skip(i as int)) == plain_json(s@),
        decreases s.len() - i,
    {
        let ghost was = out@;
        let ghost now = s@.skip(i as int);
        let x = s[i];
        if x != '\\' {
            out.push(x);
            i = i + 1;
            proof {
                assert(now.skip(1) =~= s@.skip(i as int));
            }
        } else if s.len() - i == 1 {
            out.push('\\');
            i = i + 1;
            proof {
                assert(plain_json(s@.skip(i as int)) =~= seq![]);
            }
        } else {
            let y = s[i + 1];
            if y != '/' && y != '\\' {
                out.push('\\');
            }
            out.push(y);
            i = i + 2;
            proof {
                assert(now.skip(2) =~= s@.skip(i as int));
            }
        }
        assert(out@ + plain_json(s@.skip(i as int)) =~= was + plain_json(now));
    }
    assert(out@ + plain_json(s@.skip(i as int)) =~= out@);
    out
}

/// The value of the first `"cwd":"..."` in a text, with `\/` and `\\` resolved. The text need be no
/// whole document.
pub fn extract_cwd(text: &str) -> (r: Option<String>)
    ensures
        r.deep_view() == cwd_in(text@),
{
    let c = chars_of(text);
    match find_text(c.as_slice(), "\"cwd\":\"", 0) {
        Some(i) => {
            let p = chars_of("\"cwd\":\"");
            let n = c.len();
            assert(occurs_at(c@, p@, i as int));
            assert(i + p@.len() <= n);
            let rest = slice_subrange(c.as_slice(), i + p.len(), n);
            assert(rest@ =~= text@.skip(i + "\"cwd\":\""@.len()));
            match find_unescaped_quote(rest) {
                Some(end) => {
                    let v = slice_subrange(rest, 0, end);
                    assert(v@ =~= rest@.take(end as int));
                    Some(unescape_json_minimal(v))
                },
                None => None,
            }
        },
        None => None,
    }
}

/// The name of the directory that keeps a project's sessions.
pub open spec fn encoded_dir(p: Seq<Seq<char>>) -> Seq<char> {
    swapped(swapped(path_text(p), '/', '-'), '.', '-')
}

/// The name of the directory that keeps a project's sessions: its path with each `/` and each `.`
/// as a `-`.
pub fn encode_claude_project_dir(path: &FilePath) -> (r: String)
    ensures
        r@ == encoded_dir(path@),
{
    let t = path.text();
    let c = chars_of(t.as_str());
    let once = swap_char(c.as_slice(), '/', '-');
    let twice = swap_char(once.as_slice(), '.', '-');
    string_of(twice.as_slice())
}

} // verus!
