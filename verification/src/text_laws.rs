//! What holds of every text that is cut into lines, pieces and words.

use vstd::prelude::*;

use crate::text::{
    index_of, is_space, lemma_span, lemma_span_is, lines, nonspaces, other_than, spaces, split,
    trim, trim_end, trim_end_where, trim_start, without_return, words,
};

verus! {

/// Whether `c` stands nowhere in `s`.
pub open spec fn free_of(s: Seq<char>, c: char) -> bool {
    forall|i: int| 0 <= i < s.len() ==> #[trigger] s[i] != c
}

/// Whether a text is empty or its last line is ended.
pub open spec fn whole_lines(s: Seq<char>) -> bool {
    s.len() == 0 || s.last() == '\n'
}

/// Whether a text holds white space only.
pub open spec fn blank(s: Seq<char>) -> bool {
    forall|i: int| 0 <= i < s.len() ==> is_space(#[trigger] s[i])
}

/// Whether a text is empty, or neither its first nor its last character is white space.
pub open spec fn tight(s: Seq<char>) -> bool {
    s.len() == 0 || (!is_space(s[0]) && !is_space(s.last()))
}

/// Pieces with `c` between them.
pub open spec fn joined_by(pieces: Seq<Seq<char>>, c: char) -> Seq<char>
    decreases pieces.len(),
{
    if pieces.len() == 0 {
        seq![]
    } else if pieces.len() == 1 {
        pieces[0]
    } else {
        pieces[0] + seq![c] + joined_by(pieces.skip(1), c)
    }
}

/// Where a character first stands in a text with more behind it.
pub proof fn lemma_first_place(a: Seq<char>, b: Seq<char>, c: char)
    requires
        free_of(a, c),
    ensures
        index_of(a + seq![c] + b, c) == a.len(),
        (a + seq![c] + b).take(a.len() as int) == a,
        (a + seq![c] + b).skip(a.len() as int + 1) == b,
{
    let s = a + seq![c] + b;
    assert forall|j: int| 0 <= j < a.len() implies other_than(c)(#[trigger] s[j]) by {
        assert(s[j] == a[j]);
    }
    assert(s[a.len() as int] == c);
    lemma_span_is(s, other_than(c), a.len());
    assert(s.take(a.len() as int) =~= a);
    assert(s.skip(a.len() as int + 1) =~= b);
}

/// A character that does not occur is found at the end.
pub proof fn lemma_no_place(a: Seq<char>, c: char)
    requires
        free_of(a, c),
    ensures
        index_of(a, c) == a.len(),
{
    assert forall|j: int| 0 <= j < a.len() implies other_than(c)(#[trigger] a[j]) by {}
    lemma_span_is(a, other_than(c), a.len());
}

/// A line that is written behind whole lines, and ended, is one line more; of a carriage return at its
/// end nothing is left.
pub proof fn law_a_further_line(s: Seq<char>, l: Seq<char>)
    requires
        whole_lines(s),
        free_of(l, '\n'),
    ensures
        lines(s + l + seq!['\n']) == lines(s).push(
            if l.len() > 0 && l.last() == '\r' {
                l.drop_last()
            } else {
                l
            },
        ),
    decreases s.len(),
{
    let t = s + l + seq!['\n'];
    if s.len() == 0 {
        assert(t =~= l + seq!['\n'] + seq![]);
        lemma_first_place(l, seq![], '\n');
        assert(lines(seq![]) =~= seq![]);
        assert(lines(t) =~= lines(s).push(without_return(l)));
    } else {
        lemma_span(s, other_than('\n'));
        let k = index_of(s, '\n') as int;
        assert(k < s.len()) by {
            if k == s.len() {
                assert(other_than('\n')(s[s.len() - 1]));
            }
        }
        assert(s[k] == '\n');
        let a = s.take(k);
        let b = s.skip(k + 1);
        assert(free_of(a, '\n')) by {
            assert forall|i: int| 0 <= i < a.len() implies #[trigger] a[i] != '\n' by {
                assert(other_than('\n')(s[i]));
            }
        }
        assert(whole_lines(b)) by {
            if b.len() > 0 {
                assert(b.last() == s.last());
            }
        }
        law_a_further_line(b, l);
        assert(t =~= a + seq!['\n'] + (b + l + seq!['\n']));
        lemma_first_place(a, b + l + seq!['\n'], '\n');
        assert(s =~= a + seq!['\n'] + b);
        lemma_first_place(a, b, '\n');
        assert(lines(t) =~= seq![without_return(a)] + lines(b + l + seq!['\n']));
        assert(lines(s) =~= seq![without_return(a)] + lines(b));
        assert(lines(t) =~= lines(s).push(without_return(l)));
    }
}

/// What stands behind the last ended line is a line too, unless it is nothing.
pub proof fn law_an_open_line(s: Seq<char>, l: Seq<char>)
    requires
        whole_lines(s),
        free_of(l, '\n'),
        l.len() > 0,
    ensures
        lines(s + l) == lines(s).push(l),
    decreases s.len(),
{
    let t = s + l;
    if s.len() == 0 {
        assert(t =~= l);
        lemma_no_place(l, '\n');
        assert(lines(seq![]) =~= seq![]);
        assert(lines(t) =~= lines(s).push(l));
    } else {
        lemma_span(s, other_than('\n'));
        let k = index_of(s, '\n') as int;
        assert(k < s.len()) by {
            if k == s.len() {
                assert(other_than('\n')(s[s.len() - 1]));
            }
        }
        let a = s.take(k);
        let b = s.skip(k + 1);
        assert(free_of(a, '\n')) by {
            assert forall|i: int| 0 <= i < a.len() implies #[trigger] a[i] != '\n' by {
                assert(other_than('\n')(s[i]));
            }
        }
        assert(whole_lines(b)) by {
            if b.len() > 0 {
                assert(b.last() == s.last());
            }
        }
        law_an_open_line(b, l);
        assert(t =~= a + seq!['\n'] + (b + l));
        lemma_first_place(a, b + l, '\n');
        assert(s =~= a + seq!['\n'] + b);
        lemma_first_place(a, b, '\n');
        assert(lines(t) =~= seq![without_return(a)] + lines(b + l));
        assert(lines(s) =~= seq![without_return(a)] + lines(b));
        assert(lines(t) =~= lines(s).push(l));
    }
}

proof fn lemma_trim_end_of(m: Seq<char>, b: Seq<char>, p: spec_fn(char) -> bool)
    requires
        m.len() > 0 ==> !p(m.last()),
        forall|i: int| 0 <= i < b.len() ==> p(#[trigger] b[i]),
    ensures
        trim_end_where(m + b, p) == m,
    decreases b.len(),
{
    if b.len() == 0 {
        assert(m + b =~= m);
    } else {
        assert((m + b).last() == b[b.len() - 1]);
        assert((m + b).drop_last() =~= m + b.drop_last());
        lemma_trim_end_of(m, b.drop_last(), p);
    }
}

/// White space around a text is taken off, and nothing else is.
pub proof fn law_trim_takes_off_what_is_around(a: Seq<char>, m: Seq<char>, b: Seq<char>)
    requires
        blank(a),
        blank(b),
        tight(m),
    ensures
        trim(a + m + b) == m,
        trim_start(a + m + b) == (if m.len() > 0 {
            m + b
        } else {
            seq![]
        }),
{
    let s = a + m + b;
    if m.len() > 0 {
        assert forall|j: int| 0 <= j < a.len() implies spaces()(#[trigger] s[j]) by {
            assert(s[j] == a[j]);
        }
        assert(s[a.len() as int] == m[0]);
        lemma_span_is(s, spaces(), a.len());
        assert(s.skip(a.len() as int) =~= m + b);
        lemma_trim_end_of(m, b, spaces());
    } else {
        assert forall|j: int| 0 <= j < s.len() implies spaces()(#[trigger] s[j]) by {
            if j < a.len() {
                assert(s[j] == a[j]);
            } else {
                assert(s[j] == b[j - a.len()]);
            }
        }
        lemma_span_is(s, spaces(), s.len());
        assert(s.skip(s.len() as int) =~= seq![]);
        assert(trim_end(Seq::<char>::empty()) =~= seq![]);
        assert(m =~= seq![]);
    }
}

/// A text that neither starts nor ends with white space stays as it is.
pub proof fn lemma_trim_tight(m: Seq<char>)
    requires
        tight(m),
    ensures
        trim(m) == m,
        trim_start(m) == m,
{
    law_trim_takes_off_what_is_around(seq![], m, seq![]);
    assert(seq![] + m + seq![] =~= m);
    assert(m + seq![] =~= m);
    assert(m.len() == 0 ==> m =~= seq![]);
}

/// The pieces of a text are free of what separates them, and put together with it they are the text.
pub proof fn law_pieces_make_the_text(s: Seq<char>, c: char)
    ensures
        split(s, c).len() > 0,
        joined_by(split(s, c), c) == s,
        forall|i: int| 0 <= i < split(s, c).len() ==> free_of(#[trigger] split(s, c)[i], c),
    decreases s.len(),
{
    lemma_span(s, other_than(c));
    let k = index_of(s, c) as int;
    if k >= s.len() {
        assert forall|j: int| 0 <= j < s.len() implies #[trigger] s[j] != c by {
            assert(other_than(c)(s[j]));
        }
    } else {
        let a = s.take(k);
        let b = s.skip(k + 1);
        law_pieces_make_the_text(b, c);
        let p = split(s, c);
        assert(p =~= seq![a] + split(b, c));
        assert(p.skip(1) =~= split(b, c));
        assert(free_of(a, c)) by {
            assert forall|j: int| 0 <= j < a.len() implies #[trigger] a[j] != c by {
                assert(other_than(c)(s[j]));
            }
        }
        assert(joined_by(p, c) =~= a + seq![c] + b);
        assert(a + seq![c] + b =~= s);
        assert forall|i: int| 0 <= i < p.len() implies free_of(#[trigger] p[i], c) by {
            if i > 0 {
                assert(p[i] == split(b, c)[i - 1]);
            }
        }
    }
}

/// A text in front of a separator is the first piece, and the pieces of the rest follow.
pub proof fn law_first_piece(a: Seq<char>, b: Seq<char>, c: char)
    requires
        free_of(a, c),
    ensures
        split(a + seq![c] + b, c) == seq![a] + split(b, c),
        split(a, c) == seq![a],
{
    lemma_first_place(a, b, c);
    lemma_no_place(a, c);
}

/// A word that ends at white space is the first of the words, and those of the rest follow.
pub proof fn law_first_word(a: Seq<char>, w: Seq<char>, b: Seq<char>)
    requires
        blank(a),
        w.len() > 0,
        forall|i: int| 0 <= i < w.len() ==> !is_space(#[trigger] w[i]),
        b.len() > 0 ==> is_space(b[0]),
    ensures
        words(a + w + b) == seq![w] + words(b),
{
    let s = a + w + b;
    assert forall|j: int| 0 <= j < a.len() implies spaces()(#[trigger] s[j]) by {
        assert(s[j] == a[j]);
    }
    assert(s[a.len() as int] == w[0]);
    lemma_span_is(s, spaces(), a.len());
    let t = s.skip(a.len() as int);
    assert(t =~= w + b);
    assert forall|j: int| 0 <= j < w.len() implies nonspaces()(#[trigger] t[j]) by {
        assert(t[j] == w[j]);
    }
    if b.len() > 0 {
        assert(t[w.len() as int] == b[0]);
    }
    lemma_span_is(t, nonspaces(), w.len());
    assert(t.take(w.len() as int) =~= w);
    assert(t.skip(w.len() as int) =~= b);
}

/// White space alone holds no word.
pub proof fn law_no_word(a: Seq<char>)
    requires
        blank(a),
    ensures
        words(a) == Seq::<Seq<char>>::empty(),
{
    assert forall|j: int| 0 <= j < a.len() implies spaces()(#[trigger] a[j]) by {}
    lemma_span_is(a, spaces(), a.len());
    assert(trim_start(a).len() == 0);
}

} // verus!
