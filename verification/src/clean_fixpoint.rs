//! Cleaning a description that holds no link a second time changes
//! nothing, unless the first pass leaves a carriage return right before a
//! line break (which the second pass then drops): what the first pass
//! leaves has no markup, no run of blank lines and no whitespace at its
//! ends.

use vstd::prelude::*;

use crate::bbcode::{
    ci_match_at, clean_step, cleaned_description, collapse_blank_lines, is_blank, lemma_clean_step, lines,
    spoiler_tag, strip_markup, strip_markup_from, tag_close_at, url_open_at, url_open_tag,
};
use crate::text::{
    find_char_from, is_whitespace, leading_ws, lemma_find_char_from, lemma_leading_ws, lemma_trailing_ws,
    split, split_acc, strip_cr, trailing_ws, trim, trim_end, trim_start,
};

verus! {

/// Each line followed by a `\n`.
pub open spec fn terminated(ls: Seq<Seq<char>>) -> Seq<char>
    decreases ls.len(),
{
    if ls.len() == 0 {
        Seq::empty()
    } else {
        ls[0] + seq!['\n'] + terminated(ls.drop_first())
    }
}

/// The lines with a `\n` between each two.
pub open spec fn joined(ls: Seq<Seq<char>>) -> Seq<char> {
    if ls.len() == 0 {
        Seq::empty()
    } else {
        terminated(ls.drop_last()) + ls.last()
    }
}

/// `t` holds no `x`.
pub open spec fn free_of(t: Seq<char>, x: char) -> bool {
    forall|i: int| 0 <= i < t.len() ==> t[i] != x
}

proof fn lemma_free_concat(a: Seq<char>, b: Seq<char>, x: char)
    ensures
        free_of(a + b, x) <==> free_of(a, x) && free_of(b, x),
{
    if free_of(a + b, x) {
        assert forall|i: int| 0 <= i < a.len() implies a[i] != x by {
            assert((a + b)[i] == a[i]);
        }
        assert forall|i: int| 0 <= i < b.len() implies b[i] != x by {
            assert((a + b)[a.len() + i] == b[i]);
        }
    }
}

proof fn lemma_terminated_single(x: Seq<char>)
    ensures
        terminated(seq![x]) == x + seq!['\n'],
{
    assert(seq![x][0] == x);
    assert(seq![x].drop_first() =~= Seq::<Seq<char>>::empty());
    assert(terminated(Seq::<Seq<char>>::empty()) == Seq::<char>::empty());
    assert(terminated(seq![x]) =~= x + seq!['\n']);
}

proof fn lemma_terminated_concat(a: Seq<Seq<char>>, b: Seq<Seq<char>>)
    ensures
        terminated(a + b) == terminated(a) + terminated(b),
    decreases a.len(),
{
    if a.len() == 0 {
        assert(a + b =~= b);
        assert(terminated(a) + terminated(b) =~= terminated(b));
    } else {
        lemma_terminated_concat(a.drop_first(), b);
        assert((a + b).drop_first() =~= a.drop_first() + b);
        assert((a + b)[0] == a[0]);
        assert(terminated(a + b) =~= terminated(a) + terminated(b));
    }
}

proof fn lemma_terminated_push(p: Seq<Seq<char>>, x: Seq<char>)
    ensures
        terminated(p.push(x)) == terminated(p) + x + seq!['\n'],
{
    lemma_terminated_concat(p, seq![x]);
    assert(p.push(x) =~= p + seq![x]);
    lemma_terminated_single(x);
    assert(terminated(p) + (x + seq!['\n']) =~= terminated(p) + x + seq!['\n']);
}

proof fn lemma_terminated_joined(p: Seq<Seq<char>>)
    requires
        p.len() > 0,
    ensures
        terminated(p) == joined(p) + seq!['\n'],
{
    lemma_terminated_push(p.drop_last(), p.last());
    assert(p.drop_last().push(p.last()) =~= p);
}

proof fn lemma_split_terminated(s: Seq<char>, cur: Seq<char>)
    ensures
        terminated(split_acc(s, '\n', cur)) == cur + s + seq!['\n'],
    decreases s.len(),
{
    if s.len() == 0 {
        lemma_terminated_single(cur);
        assert(cur + s =~= cur);
    } else if s[0] == '\n' {
        lemma_split_terminated(s.drop_first(), Seq::empty());
        let r = split_acc(s.drop_first(), '\n', Seq::empty());
        assert((seq![cur] + r).drop_first() =~= r);
        assert((seq![cur] + r)[0] == cur);
        assert(cur + s + seq!['\n'] =~= cur + seq!['\n'] + (Seq::<char>::empty() + s.drop_first()
            + seq!['\n']));
    } else {
        lemma_split_terminated(s.drop_first(), cur.push(s[0]));
        assert(cur.push(s[0]) + s.drop_first() =~= cur + s);
    }
}

proof fn lemma_split_pieces_free(s: Seq<char>, cur: Seq<char>)
    requires
        free_of(cur, '\n'),
    ensures
        forall|k: int|
            0 <= k < split_acc(s, '\n', cur).len() ==> free_of(#[trigger] split_acc(s, '\n', cur)[k], '\n'),
    decreases s.len(),
{
    if s.len() == 0 {
        assert(split_acc(s, '\n', cur) == seq![cur]);
        assert(seq![cur][0] == cur);
    } else if s[0] == '\n' {
        lemma_split_pieces_free(s.drop_first(), Seq::empty());
        let r = split_acc(s.drop_first(), '\n', Seq::empty());
        assert forall|k: int| 0 <= k < (seq![cur] + r).len() implies free_of(
            #[trigger] (seq![cur] + r)[k],
            '\n',
        ) by {
            if k > 0 {
                assert((seq![cur] + r)[k] == r[k - 1]);
            } else {
                assert((seq![cur] + r)[0] == cur);
            }
        }
        assert(split_acc(s, '\n', cur) == seq![cur] + r);
    } else {
        lemma_free_concat(cur, seq![s[0]], '\n');
        assert(seq![s[0]][0] == s[0]);
        assert(free_of(seq![s[0]], '\n'));
        assert(cur.push(s[0]) =~= cur + seq![s[0]]);
        lemma_split_pieces_free(s.drop_first(), cur.push(s[0]));
        assert(split_acc(s, '\n', cur) == split_acc(s.drop_first(), '\n', cur.push(s[0])));
    }
}

proof fn lemma_split_free(a: Seq<char>, cur: Seq<char>)
    requires
        free_of(a, '\n'),
    ensures
        split_acc(a, '\n', cur) == seq![cur + a],
    decreases a.len(),
{
    if a.len() == 0 {
        assert(cur + a =~= cur);
    } else {
        lemma_split_free(a.drop_first(), cur.push(a[0]));
        assert(cur.push(a[0]) + a.drop_first() =~= cur + a);
    }
}

proof fn lemma_split_at_sep(a: Seq<char>, b: Seq<char>, cur: Seq<char>)
    requires
        free_of(a, '\n'),
    ensures
        split_acc(a + seq!['\n'] + b, '\n', cur) == seq![cur + a] + split_acc(b, '\n', Seq::empty()),
    decreases a.len(),
{
    let t = a + seq!['\n'] + b;
    if a.len() == 0 {
        assert(t[0] == '\n');
        assert(t.drop_first() =~= b);
        assert(cur + a =~= cur);
    } else {
        assert(t[0] == a[0]);
        assert(t.drop_first() =~= a.drop_first() + seq!['\n'] + b);
        lemma_split_at_sep(a.drop_first(), b, cur.push(a[0]));
        assert(cur.push(a[0]) + a.drop_first() =~= cur + a);
    }
}

proof fn lemma_split_joined(p: Seq<Seq<char>>, x: Seq<char>)
    requires
        forall|k: int| 0 <= k < p.len() ==> free_of(#[trigger] p[k], '\n'),
        free_of(x, '\n'),
    ensures
        split_acc(terminated(p) + x, '\n', Seq::empty()) == p.push(x),
    decreases p.len(),
{
    if p.len() == 0 {
        assert(terminated(p) + x =~= x);
        lemma_split_free(x, Seq::empty());
        assert(Seq::<char>::empty() + x =~= x);
        assert(p.push(x) =~= seq![x]);
    } else {
        let rest = p.drop_first();
        assert(terminated(p) + x =~= p[0] + seq!['\n'] + (terminated(rest) + x));
        assert(free_of(p[0], '\n'));
        lemma_split_at_sep(p[0], terminated(rest) + x, Seq::empty());
        assert forall|k: int| 0 <= k < rest.len() implies free_of(#[trigger] rest[k], '\n') by {
            assert(rest[k] == p[k + 1]);
        }
        lemma_split_joined(rest, x);
        assert(Seq::<char>::empty() + p[0] =~= p[0]);
        assert(seq![p[0]] + rest.push(x) =~= p.push(x));
    }
}

/// The lines of the joined lines are those lines, when none holds a line
/// break and the last is not empty.
proof fn lemma_lines_of_joined(c: Seq<Seq<char>>)
    requires
        c.len() > 0,
        forall|k: int| 0 <= k < c.len() ==> free_of(#[trigger] c[k], '\n'),
        forall|k: int| 0 <= k < c.len() - 1 ==> !ends_with_cr(#[trigger] c[k]),
        c.last().len() > 0,
    ensures
        lines(joined(c)) == c,
{
    let q = c.drop_last();
    assert forall|k: int| 0 <= k < q.len() implies free_of(#[trigger] q[k], '\n') by {
        assert(q[k] == c[k]);
    }
    lemma_split_joined(q, c.last());
    assert(q.push(c.last()) =~= c);
    let pieces = split(joined(c), '\n');
    assert(pieces == c);
    assert forall|k: int| 0 <= k < q.len() implies strip_cr(#[trigger] q[k]) == q[k] by {
        assert(q[k] == c[k]);
    }
    assert(pieces.drop_last().map_values(|l: Seq<char>| strip_cr(l)) =~= q);
}

/// `l` ends with a carriage return.
pub open spec fn ends_with_cr(l: Seq<char>) -> bool {
    l.len() > 0 && l.last() == '\r'
}

/// No carriage return in `t` stands right before a line break.
pub open spec fn no_cr_before_newline(t: Seq<char>) -> bool {
    forall|i: int| 0 <= i < t.len() - 1 && #[trigger] t[i] == '\r' ==> t[i + 1] != '\n'
}

proof fn lemma_terminated_no_cr_end(p: Seq<Seq<char>>, x: Seq<char>)
    requires
        no_cr_before_newline(terminated(p) + x),
    ensures
        forall|k: int| 0 <= k < p.len() ==> !ends_with_cr(#[trigger] p[k]),
    decreases p.len(),
{
    if p.len() > 0 {
        let rest = p.drop_first();
        let tail = terminated(rest) + x;
        let t = p[0] + seq!['\n'] + tail;
        assert(terminated(p) + x =~= t);
        if ends_with_cr(p[0]) {
            let i = p[0].len() - 1;
            assert(t[i] == '\r');
            assert(t[i + 1] == '\n');
        }
        assert forall|i: int| 0 <= i < tail.len() - 1 && #[trigger] tail[i] == '\r' implies tail[i + 1] != '\n' by {
            let o = p[0].len() + 1;
            assert(t[o + i] == tail[i]);
            assert(t[o + i + 1] == tail[i + 1]);
        }
        lemma_terminated_no_cr_end(rest, x);
        assert forall|k: int| 0 <= k < p.len() implies !ends_with_cr(#[trigger] p[k]) by {
            if k > 0 {
                assert(rest[k - 1] == p[k]);
            }
        }
    }
}

/// Every character of `t` is whitespace.
pub open spec fn all_ws(t: Seq<char>) -> bool {
    forall|i: int| 0 <= i < t.len() ==> is_whitespace(#[trigger] t[i])
}

proof fn lemma_blank_iff(x: Seq<char>)
    ensures
        is_blank(x) <==> all_ws(x),
        all_ws(x) <==> leading_ws(x) == x.len(),
        all_ws(x) <==> trailing_ws(x) == x.len(),
{
    lemma_leading_ws(x);
    lemma_trailing_ws(x);
    let y = trim_start(x);
    lemma_trailing_ws(y);
    if leading_ws(x) < x.len() {
        assert(y[0] == x[leading_ws(x) as int]);
        assert(!all_ws(x));
        if trailing_ws(y) == y.len() {
            assert(is_whitespace(y[0]));
        }
        assert(trim(x).len() > 0);
    } else {
        assert(y.len() == 0);
        assert(trim(x).len() == 0);
    }
    if trailing_ws(x) < x.len() {
        assert(!all_ws(x));
    }
}

proof fn lemma_leading_ws_concat(a: Seq<char>, b: Seq<char>)
    ensures
        leading_ws(a + b) == if leading_ws(a) < a.len() {
            leading_ws(a)
        } else {
            a.len() + leading_ws(b)
        },
    decreases a.len(),
{
    if a.len() > 0 {
        assert((a + b)[0] == a[0]);
        if is_whitespace(a[0]) {
            lemma_leading_ws_concat(a.drop_first(), b);
            assert((a + b).drop_first() =~= a.drop_first() + b);
        }
    } else {
        assert(a + b =~= b);
    }
}

proof fn lemma_trailing_ws_concat(a: Seq<char>, b: Seq<char>)
    ensures
        trailing_ws(a + b) == if trailing_ws(b) < b.len() {
            trailing_ws(b)
        } else {
            b.len() + trailing_ws(a)
        },
    decreases b.len(),
{
    if b.len() > 0 {
        assert((a + b).last() == b.last());
        if is_whitespace(b.last()) {
            lemma_trailing_ws_concat(a, b.drop_last());
            assert((a + b).drop_last() =~= a + b.drop_last());
        }
    } else {
        assert(a + b =~= a);
    }
}

proof fn lemma_newline_ws()
    ensures
        leading_ws(seq!['\n']) == 1,
        trailing_ws(seq!['\n']) == 1,
{
    let nl = seq!['\n'];
    assert(nl[0] == '\n');
    assert(nl.last() == '\n');
    assert(is_whitespace('\n'));
    assert(nl.drop_first() =~= Seq::<char>::empty());
    assert(nl.drop_last() =~= Seq::<char>::empty());
    assert(leading_ws(Seq::<char>::empty()) == 0);
    assert(trailing_ws(Seq::<char>::empty()) == 0);
}

/// The lines from the first non-blank one on, that one without its leading
/// whitespace.
pub open spec fn strip_front(m: Seq<Seq<char>>) -> Seq<Seq<char>>
    decreases m.len(),
{
    if m.len() == 0 {
        m
    } else if is_blank(m[0]) {
        strip_front(m.drop_first())
    } else {
        seq![trim_start(m[0])] + m.drop_first()
    }
}

/// The lines up to the last non-blank one, that one without its trailing
/// whitespace.
pub open spec fn strip_back(p: Seq<Seq<char>>) -> Seq<Seq<char>>
    decreases p.len(),
{
    if p.len() == 0 {
        p
    } else if is_blank(p.last()) {
        strip_back(p.drop_last())
    } else {
        p.drop_last().push(trim_end(p.last()))
    }
}

proof fn lemma_trim_start_terminated(m: Seq<Seq<char>>)
    ensures
        trim_start(terminated(m)) == terminated(strip_front(m)),
    decreases m.len(),
{
    if m.len() == 0 {
        assert(trim_start(Seq::<char>::empty()) =~= Seq::<char>::empty());
    } else {
        let rest = m.drop_first();
        let t = terminated(rest);
        let big = m[0] + (seq!['\n'] + t);
        lemma_blank_iff(m[0]);
        lemma_leading_ws(m[0]);
        lemma_leading_ws_concat(m[0], seq!['\n'] + t);
        assert(terminated(m) =~= big);
        if is_blank(m[0]) {
            lemma_newline_ws();
            lemma_leading_ws_concat(seq!['\n'], t);
            assert(leading_ws(big) == m[0].len() + 1 + leading_ws(t));
            lemma_trim_start_terminated(rest);
            lemma_leading_ws(t);
            assert(big.skip(leading_ws(big) as int) =~= t.skip(leading_ws(t) as int));
        } else {
            assert(leading_ws(big) == leading_ws(m[0]));
            let sf = seq![trim_start(m[0])] + rest;
            assert(sf[0] == trim_start(m[0]));
            assert(sf.drop_first() =~= rest);
            assert(big.skip(leading_ws(big) as int) =~= trim_start(m[0]) + seq!['\n'] + t);
        }
    }
}

proof fn lemma_trim_end_terminated(p: Seq<Seq<char>>)
    ensures
        trim_end(terminated(p)) == joined(strip_back(p)),
    decreases p.len(),
{
    if p.len() == 0 {
        assert(trim_end(Seq::<char>::empty()) =~= Seq::<char>::empty());
    } else {
        let q = p.drop_last();
        let x = p.last();
        let tq = terminated(q);
        lemma_terminated_push(q, x);
        assert(q.push(x) =~= p);
        assert(terminated(p) =~= tq + (x + seq!['\n']));
        lemma_trailing_ws_concat(tq, x + seq!['\n']);
        lemma_trailing_ws_concat(x, seq!['\n']);
        lemma_newline_ws();
        lemma_blank_iff(x);
        lemma_trailing_ws(x);
        let big = tq + (x + seq!['\n']);
        if is_blank(x) {
            lemma_trim_end_terminated(q);
            lemma_trailing_ws(tq);
            assert(trailing_ws(x + seq!['\n']) == x.len() + 1);
            assert(trailing_ws(big) == x.len() + 1 + trailing_ws(tq));
            assert(big.take(big.len() - trailing_ws(big)) =~= tq.take(tq.len() - trailing_ws(tq)));
        } else {
            let sb = q.push(trim_end(x));
            assert(sb.drop_last() =~= q);
            assert(trim_end(terminated(p)) =~= tq + trim_end(x));
        }
    }
}

/// Blank lines are empty, and no two of them stand next to each other.
pub open spec fn blanks_single(c: Seq<Seq<char>>) -> bool {
    &&& forall|k: int| 0 <= k < c.len() && is_blank(#[trigger] c[k]) ==> c[k].len() == 0
    &&& forall|k: int| 0 <= k < c.len() - 1 && is_blank(#[trigger] c[k]) ==> !is_blank(c[k + 1])
}

proof fn lemma_collapse_single(c: Seq<Seq<char>>, after_blank: bool)
    requires
        blanks_single(c),
        after_blank && c.len() > 0 ==> !is_blank(c[0]),
    ensures
        collapse_blank_lines(c, after_blank) == terminated(c),
    decreases c.len(),
{
    if c.len() > 0 {
        let rest = c.drop_first();
        assert forall|k: int| 0 <= k < rest.len() && is_blank(#[trigger] rest[k]) implies rest[k].len()
            == 0 by {
            assert(rest[k] == c[k + 1]);
        }
        assert forall|k: int| 0 <= k < rest.len() - 1 && is_blank(#[trigger] rest[k]) implies !is_blank(
            rest[k + 1],
        ) by {
            assert(rest[k] == c[k + 1]);
            assert(rest[k + 1] == c[k + 2]);
        }
        if is_blank(c[0]) {
            if c.len() > 1 {
                assert(rest[0] == c[1]);
            }
            lemma_collapse_single(rest, true);
            assert(c[0] =~= Seq::<char>::empty());
            assert(collapse_blank_lines(c, after_blank) =~= c[0] + seq!['\n'] + terminated(rest));
        } else {
            lemma_collapse_single(rest, false);
        }
    }
}

/// The lines with each run of blank lines turned into one empty line;
/// `after_blank` says a blank line came just before.
pub open spec fn collapsed(ls: Seq<Seq<char>>, after_blank: bool) -> Seq<Seq<char>>
    decreases ls.len(),
{
    if ls.len() == 0 {
        Seq::empty()
    } else if is_blank(ls[0]) {
        if after_blank {
            collapsed(ls.drop_first(), true)
        } else {
            seq![Seq::<char>::empty()] + collapsed(ls.drop_first(), true)
        }
    } else {
        seq![ls[0]] + collapsed(ls.drop_first(), false)
    }
}

proof fn lemma_collapse_is_terminated(ls: Seq<Seq<char>>, after_blank: bool)
    ensures
        collapse_blank_lines(ls, after_blank) == terminated(collapsed(ls, after_blank)),
    decreases ls.len(),
{
    if ls.len() > 0 {
        let rest = ls.drop_first();
        if is_blank(ls[0]) {
            lemma_collapse_is_terminated(rest, true);
            if !after_blank {
                let r = collapsed(rest, true);
                let m = seq![Seq::<char>::empty()] + r;
                assert(m[0] == Seq::<char>::empty());
                assert(m.drop_first() =~= r);
                assert(terminated(m) =~= seq!['\n'] + terminated(r));
            } else {
                assert(collapse_blank_lines(ls, after_blank) =~= terminated(collapsed(rest, true)));
            }
        } else {
            lemma_collapse_is_terminated(rest, false);
            let r = collapsed(rest, false);
            let m = seq![ls[0]] + r;
            assert(m[0] == ls[0]);
            assert(m.drop_first() =~= r);
        }
    }
}

proof fn lemma_collapsed_single(ls: Seq<Seq<char>>, after_blank: bool)
    ensures
        blanks_single(collapsed(ls, after_blank)),
        after_blank && collapsed(ls, after_blank).len() > 0 ==> !is_blank(collapsed(ls, after_blank)[0]),
    decreases ls.len(),
{
    if ls.len() > 0 {
        let rest = ls.drop_first();
        lemma_blank_iff(Seq::<char>::empty());
        if is_blank(ls[0]) {
            lemma_collapsed_single(rest, true);
            if !after_blank {
                let r = collapsed(rest, true);
                let m = seq![Seq::<char>::empty()] + r;
                assert forall|k: int| 0 <= k < m.len() && is_blank(#[trigger] m[k]) implies m[k].len()
                    == 0 by {
                    if k > 0 {
                        assert(m[k] == r[k - 1]);
                    }
                }
                assert forall|k: int| 0 <= k < m.len() - 1 && is_blank(#[trigger] m[k]) implies !is_blank(
                    m[k + 1],
                ) by {
                    assert(m[k + 1] == r[k]);
                    if k > 0 {
                        assert(m[k] == r[k - 1]);
                    }
                }
            }
        } else {
            lemma_collapsed_single(rest, false);
            let r = collapsed(rest, false);
            let m = seq![ls[0]] + r;
            assert forall|k: int| 0 <= k < m.len() && is_blank(#[trigger] m[k]) implies m[k].len() == 0 by {
                if k > 0 {
                    assert(m[k] == r[k - 1]);
                }
            }
            assert forall|k: int| 0 <= k < m.len() - 1 && is_blank(#[trigger] m[k]) implies !is_blank(
                m[k + 1],
            ) by {
                assert(m[k + 1] == r[k]);
                if k > 0 {
                    assert(m[k] == r[k - 1]);
                }
            }
            assert(m[0] == ls[0]);
        }
    }
}

proof fn lemma_collapsed_entries(ls: Seq<Seq<char>>, after_blank: bool, p: spec_fn(Seq<char>) -> bool)
    requires
        p(Seq::<char>::empty()),
        forall|k: int| 0 <= k < ls.len() ==> p(#[trigger] ls[k]),
    ensures
        forall|j: int| 0 <= j < collapsed(ls, after_blank).len() ==> p(#[trigger] collapsed(ls, after_blank)[j]),
    decreases ls.len(),
{
    if ls.len() > 0 {
        let rest = ls.drop_first();
        assert forall|k: int| 0 <= k < rest.len() implies p(#[trigger] rest[k]) by {
            assert(rest[k] == ls[k + 1]);
        }
        if is_blank(ls[0]) {
            lemma_collapsed_entries(rest, true, p);
            let r = collapsed(rest, true);
            if !after_blank {
                let m = seq![Seq::<char>::empty()] + r;
                assert forall|j: int| 0 <= j < m.len() implies p(#[trigger] m[j]) by {
                    if j > 0 {
                        assert(m[j] == r[j - 1]);
                    }
                }
            }
        } else {
            lemma_collapsed_entries(rest, false, p);
            let r = collapsed(rest, false);
            let m = seq![ls[0]] + r;
            assert forall|j: int| 0 <= j < m.len() implies p(#[trigger] m[j]) by {
                if j > 0 {
                    assert(m[j] == r[j - 1]);
                }
            }
        }
    }
}

/// The line list starts with a line whose first character is not
/// whitespace, and ends with one whose last character is not.
pub open spec fn ends_solid(c: Seq<Seq<char>>) -> bool {
    c.len() > 0 ==> {
        &&& c[0].len() > 0
        &&& !is_whitespace(c[0][0])
        &&& c.last().len() > 0
        &&& !is_whitespace(c.last().last())
    }
}

proof fn lemma_strip_front_props(m: Seq<Seq<char>>, x: char)
    requires
        blanks_single(m),
    ensures
        blanks_single(strip_front(m)),
        strip_front(m).len() > 0 ==> strip_front(m)[0].len() > 0 && !is_whitespace(strip_front(m)[0][0]),
        (forall|k: int| 0 <= k < m.len() ==> free_of(#[trigger] m[k], x)) ==> forall|k: int|
            0 <= k < strip_front(m).len() ==> free_of(#[trigger] strip_front(m)[k], x),
    decreases m.len(),
{
    if m.len() > 0 {
        let rest = m.drop_first();
        assert forall|k: int| 0 <= k < rest.len() && is_blank(#[trigger] rest[k]) implies rest[k].len()
            == 0 by {
            assert(rest[k] == m[k + 1]);
        }
        assert forall|k: int| 0 <= k < rest.len() - 1 && is_blank(#[trigger] rest[k]) implies !is_blank(
            rest[k + 1],
        ) by {
            assert(rest[k] == m[k + 1]);
            assert(rest[k + 1] == m[k + 2]);
        }
        if (forall|k: int| 0 <= k < m.len() ==> free_of(#[trigger] m[k], x)) {
            assert forall|k: int| 0 <= k < rest.len() implies free_of(#[trigger] rest[k], x) by {
                assert(rest[k] == m[k + 1]);
            }
        }
        if is_blank(m[0]) {
            lemma_strip_front_props(rest, x);
        } else {
            let h = trim_start(m[0]);
            let sf = seq![h] + rest;
            lemma_blank_iff(m[0]);
            lemma_leading_ws(m[0]);
            assert(h[0] == m[0][leading_ws(m[0]) as int]);
            lemma_blank_iff(h);
            assert(!all_ws(h));
            assert forall|k: int| 0 <= k < sf.len() && is_blank(#[trigger] sf[k]) implies sf[k].len()
                == 0 by {
                if k > 0 {
                    assert(sf[k] == rest[k - 1]);
                }
            }
            assert forall|k: int| 0 <= k < sf.len() - 1 && is_blank(#[trigger] sf[k]) implies !is_blank(
                sf[k + 1],
            ) by {
                assert(sf[k + 1] == rest[k]);
                if k > 0 {
                    assert(sf[k] == rest[k - 1]);
                }
            }
            if (forall|k: int| 0 <= k < m.len() ==> free_of(#[trigger] m[k], x)) {
                assert(free_of(m[0], x));
                assert forall|k: int| 0 <= k < sf.len() implies free_of(#[trigger] sf[k], x) by {
                    if k > 0 {
                        assert(sf[k] == rest[k - 1]);
                    } else {
                        assert forall|i: int| 0 <= i < h.len() implies h[i] != x by {
                            assert(h[i] == m[0][leading_ws(m[0]) + i]);
                        }
                    }
                }
            }
        }
    }
}

proof fn lemma_strip_back_props(p: Seq<Seq<char>>, x: char)
    requires
        blanks_single(p),
        p.len() > 0 ==> p[0].len() > 0 && !is_whitespace(p[0][0]),
    ensures
        blanks_single(strip_back(p)),
        ends_solid(strip_back(p)),
        (forall|k: int| 0 <= k < p.len() ==> free_of(#[trigger] p[k], x)) ==> forall|k: int|
            0 <= k < strip_back(p).len() ==> free_of(#[trigger] strip_back(p)[k], x),
    decreases p.len(),
{
    if p.len() > 0 {
        let q = p.drop_last();
        let last = p.last();
        assert forall|k: int| 0 <= k < q.len() && is_blank(#[trigger] q[k]) implies q[k].len() == 0 by {
            assert(q[k] == p[k]);
        }
        assert forall|k: int| 0 <= k < q.len() - 1 && is_blank(#[trigger] q[k]) implies !is_blank(
            q[k + 1],
        ) by {
            assert(q[k] == p[k]);
            assert(q[k + 1] == p[k + 1]);
        }
        if (forall|k: int| 0 <= k < p.len() ==> free_of(#[trigger] p[k], x)) {
            assert forall|k: int| 0 <= k < q.len() implies free_of(#[trigger] q[k], x) by {
                assert(q[k] == p[k]);
            }
        }
        lemma_blank_iff(last);
        lemma_trailing_ws(last);
        if is_blank(last) {
            if p.len() == 1 {
                assert(last == p[0]);
                assert(is_whitespace(last[0]));
            } else {
                assert(q[0] == p[0]);
            }
            lemma_strip_back_props(q, x);
        } else {
            let t = trim_end(last);
            let sb = q.push(t);
            assert(t.len() > 0);
            assert(t.last() == last[last.len() - trailing_ws(last) - 1]);
            lemma_blank_iff(t);
            assert(!all_ws(t));
            assert(sb.last() == t);
            if p.len() == 1 {
                assert(last == p[0]);
                assert(sb[0] == t);
                assert(t[0] == last[0]);
            } else {
                assert(sb[0] == q[0]);
                assert(q[0] == p[0]);
            }
            assert forall|k: int| 0 <= k < sb.len() && is_blank(#[trigger] sb[k]) implies sb[k].len()
                == 0 by {
                if k < q.len() {
                    assert(sb[k] == q[k]);
                }
            }
            assert forall|k: int| 0 <= k < sb.len() - 1 && is_blank(#[trigger] sb[k]) implies !is_blank(
                sb[k + 1],
            ) by {
                assert(sb[k] == q[k]);
                if k + 1 < q.len() {
                    assert(sb[k + 1] == q[k + 1]);
                }
            }
            if (forall|k: int| 0 <= k < p.len() ==> free_of(#[trigger] p[k], x)) {
                assert(free_of(last, x));
                assert forall|k: int| 0 <= k < sb.len() implies free_of(#[trigger] sb[k], x) by {
                    if k < q.len() {
                        assert(sb[k] == q[k]);
                    } else {
                        assert forall|i: int| 0 <= i < t.len() implies t[i] != x by {
                            assert(t[i] == last[i]);
                        }
                    }
                }
            }
        }
    }
}

proof fn lemma_joined_ends(c: Seq<Seq<char>>)
    requires
        c.len() > 0,
        ends_solid(c),
    ensures
        joined(c).len() > 0,
        joined(c)[0] == c[0][0],
        joined(c).last() == c.last().last(),
{
    let q = c.drop_last();
    if c.len() == 1 {
        assert(q =~= Seq::<Seq<char>>::empty());
        assert(joined(c) =~= c[0]);
    } else {
        assert(q[0] == c[0]);
        assert(terminated(q) =~= q[0] + seq!['\n'] + terminated(q.drop_first()));
        assert(joined(c)[0] == terminated(q)[0]);
    }
}

proof fn lemma_trim_newline_ended(t: Seq<char>)
    requires
        t.len() > 0,
        !is_whitespace(t[0]),
        !is_whitespace(t.last()),
    ensures
        trim(t + seq!['\n']) == t,
{
    let u = t + seq!['\n'];
    lemma_newline_ws();
    lemma_leading_ws_concat(t, seq!['\n']);
    lemma_trailing_ws_concat(t, seq!['\n']);
    assert(leading_ws(t) == 0);
    assert(trailing_ws(t) == 0);
    assert(trim_start(u) =~= u);
    assert(trim(u) =~= t);
}

/// No `]` comes anywhere after a `[`: nothing in `t` can close a tag.
pub open spec fn no_close_after_open(t: Seq<char>) -> bool {
    forall|i: int, j: int| #![trigger t[i], t[j]] 0 <= i < j < t.len() && t[i] == '[' ==> t[j] != ']'
}

/// Each line has no `]` after a `[`, and no line after one holding a `[`
/// holds a `]`.
pub open spec fn lines_no_close_after_open(p: Seq<Seq<char>>) -> bool {
    &&& forall|k: int| 0 <= k < p.len() ==> no_close_after_open(#[trigger] p[k])
    &&& forall|k1: int, k2: int|
        #![trigger p[k1], p[k2]]
        0 <= k1 < k2 < p.len() && !free_of(p[k1], '[') ==> free_of(p[k2], ']')
}

/// `s` holds no `[url=`, ASCII case ignored.
pub open spec fn has_no_link(s: Seq<char>) -> bool {
    forall|i: int| 0 <= i < s.len() && s[i] == '[' ==> !ci_match_at(s, i + 1, url_open_tag())
}

proof fn lemma_nb_concat(a: Seq<char>, b: Seq<char>)
    ensures
        no_close_after_open(a + b) <==> no_close_after_open(a) && no_close_after_open(b) && (!free_of(
            a,
            '[',
        ) ==> free_of(b, ']')),
{
    let t = a + b;
    if no_close_after_open(t) {
        assert forall|i: int, j: int| 0 <= i < j < a.len() && a[i] == '[' implies a[j] != ']' by {
            assert(t[i] == a[i] && t[j] == a[j]);
        }
        assert forall|i: int, j: int| 0 <= i < j < b.len() && b[i] == '[' implies b[j] != ']' by {
            assert(t[a.len() + i] == b[i] && t[a.len() + j] == b[j]);
        }
        if !free_of(a, '[') {
            let i = choose|i: int| 0 <= i < a.len() && a[i] == '[';
            assert forall|j: int| 0 <= j < b.len() implies b[j] != ']' by {
                assert(t[i] == a[i] && t[a.len() + j] == b[j]);
            }
        }
    }
    if no_close_after_open(a) && no_close_after_open(b) && (!free_of(a, '[') ==> free_of(b, ']')) {
        assert forall|i: int, j: int| 0 <= i < j < t.len() && t[i] == '[' implies t[j] != ']' by {
            if j < a.len() {
                assert(t[i] == a[i] && t[j] == a[j]);
            } else if i < a.len() {
                assert(t[i] == a[i]);
                assert(!free_of(a, '['));
                assert(t[j] == b[j - a.len()]);
            } else {
                assert(t[i] == b[i - a.len()] && t[j] == b[j - a.len()]);
            }
        }
    }
}

proof fn lemma_newline_plain()
    ensures
        no_close_after_open(seq!['\n']),
        free_of(seq!['\n'], '['),
        free_of(seq!['\n'], ']'),
        free_of(seq!['\n'], '\r'),
{
    assert(seq!['\n'][0] == '\n');
}

proof fn lemma_free_terminated(p: Seq<Seq<char>>, x: char)
    requires
        x != '\n',
    ensures
        free_of(terminated(p), x) <==> forall|k: int| 0 <= k < p.len() ==> free_of(#[trigger] p[k], x),
    decreases p.len(),
{
    if p.len() > 0 {
        let rest = p.drop_first();
        lemma_free_terminated(rest, x);
        lemma_newline_plain();
        assert(seq!['\n'][0] == '\n');
        lemma_free_concat(p[0], seq!['\n'] + terminated(rest), x);
        lemma_free_concat(seq!['\n'], terminated(rest), x);
        assert(terminated(p) =~= p[0] + (seq!['\n'] + terminated(rest)));
        if forall|k: int| 0 <= k < p.len() ==> free_of(#[trigger] p[k], x) {
            assert forall|k: int| 0 <= k < rest.len() implies free_of(#[trigger] rest[k], x) by {
                assert(rest[k] == p[k + 1]);
            }
        }
        if free_of(terminated(p), x) {
            assert forall|k: int| 0 <= k < p.len() implies free_of(#[trigger] p[k], x) by {
                if k > 0 {
                    assert(rest[k - 1] == p[k]);
                }
            }
        }
    }
}

proof fn lemma_lines_nb_cons(p: Seq<Seq<char>>)
    requires
        p.len() > 0,
    ensures
        lines_no_close_after_open(p) <==> no_close_after_open(p[0]) && (!free_of(p[0], '[') ==> forall|k: int|
            0 <= k < p.drop_first().len() ==> free_of(#[trigger] p.drop_first()[k], ']'))
            && lines_no_close_after_open(p.drop_first()),
{
    let rest = p.drop_first();
    if lines_no_close_after_open(p) {
        assert forall|k: int| 0 <= k < rest.len() implies no_close_after_open(#[trigger] rest[k]) by {
            assert(rest[k] == p[k + 1]);
        }
        assert forall|k1: int, k2: int|
            0 <= k1 < k2 < rest.len() && !free_of(rest[k1], '[') implies free_of(rest[k2], ']') by {
            assert(rest[k1] == p[k1 + 1] && rest[k2] == p[k2 + 1]);
        }
        if !free_of(p[0], '[') {
            assert forall|k: int| 0 <= k < rest.len() implies free_of(#[trigger] rest[k], ']') by {
                assert(rest[k] == p[k + 1]);
            }
        }
    }
    if no_close_after_open(p[0]) && (!free_of(p[0], '[') ==> forall|k: int|
        0 <= k < rest.len() ==> free_of(#[trigger] rest[k], ']')) && lines_no_close_after_open(rest) {
        assert forall|k: int| 0 <= k < p.len() implies no_close_after_open(#[trigger] p[k]) by {
            if k > 0 {
                assert(rest[k - 1] == p[k]);
            }
        }
        assert forall|k1: int, k2: int|
            0 <= k1 < k2 < p.len() && !free_of(p[k1], '[') implies free_of(p[k2], ']') by {
            assert(rest[k2 - 1] == p[k2]);
            if k1 > 0 {
                assert(rest[k1 - 1] == p[k1]);
            }
        }
    }
}

proof fn lemma_nb_terminated(p: Seq<Seq<char>>)
    ensures
        no_close_after_open(terminated(p)) <==> lines_no_close_after_open(p),
    decreases p.len(),
{
    if p.len() > 0 {
        let rest = p.drop_first();
        let t = terminated(rest);
        lemma_nb_terminated(rest);
        lemma_newline_plain();
        lemma_nb_concat(p[0], seq!['\n'] + t);
        lemma_nb_concat(seq!['\n'], t);
        lemma_free_concat(seq!['\n'], t, ']');
        lemma_free_terminated(rest, ']');
        lemma_lines_nb_cons(p);
        assert(terminated(p) =~= p[0] + (seq!['\n'] + t));
    }
}

proof fn lemma_lines_nb_collapsed(ls: Seq<Seq<char>>, after_blank: bool)
    requires
        lines_no_close_after_open(ls),
    ensures
        lines_no_close_after_open(collapsed(ls, after_blank)),
    decreases ls.len(),
{
    if ls.len() > 0 {
        let rest = ls.drop_first();
        lemma_lines_nb_cons(ls);
        if is_blank(ls[0]) {
            lemma_lines_nb_collapsed(rest, true);
            if !after_blank {
                let r = collapsed(rest, true);
                let m = seq![Seq::<char>::empty()] + r;
                assert(m.drop_first() =~= r);
                assert(m[0] == Seq::<char>::empty());
                lemma_lines_nb_cons(m);
            }
        } else {
            lemma_lines_nb_collapsed(rest, false);
            let r = collapsed(rest, false);
            let m = seq![ls[0]] + r;
            assert(m.drop_first() =~= r);
            assert(m[0] == ls[0]);
            if !free_of(ls[0], '[') {
                lemma_collapsed_entries(rest, false, |e: Seq<char>| free_of(e, ']'));
            }
            lemma_lines_nb_cons(m);
        }
    }
}

/// The lines of text holding no carriage return: none holds a line break or
/// a carriage return, and they keep the text's lack of closable tags.
proof fn lemma_lines_nb_prefixes(p: Seq<Seq<char>>, q: Seq<Seq<char>>)
    requires
        p.len() == q.len(),
        forall|k: int| 0 <= k < q.len() ==> (#[trigger] q[k]).len() <= p[k].len(),
        forall|k: int, i: int| 0 <= k < q.len() && 0 <= i < q[k].len() ==> #[trigger] q[k][i] == p[k][i],
    ensures
        forall|k: int| 0 <= k < p.len() ==> free_of(#[trigger] p[k], '\n') ==> free_of(q[k], '\n'),
        lines_no_close_after_open(p) ==> lines_no_close_after_open(q),
{
    assert forall|k: int| 0 <= k < p.len() implies free_of(#[trigger] p[k], '\n') ==> free_of(q[k], '\n') by {
        if free_of(p[k], '\n') {
            assert forall|i: int| 0 <= i < q[k].len() implies q[k][i] != '\n' by {
                assert(q[k][i] == p[k][i]);
            }
        }
    }
    if lines_no_close_after_open(p) {
        assert forall|k: int| 0 <= k < q.len() implies no_close_after_open(#[trigger] q[k]) by {
            assert(no_close_after_open(p[k]));
            assert forall|i: int, j: int| 0 <= i < j < q[k].len() && q[k][i] == '[' implies q[k][j] != ']' by {
                assert(q[k][i] == p[k][i] && q[k][j] == p[k][j]);
            }
        }
        assert forall|k1: int, k2: int|
            0 <= k1 < k2 < q.len() && !free_of(q[k1], '[') implies free_of(q[k2], ']') by {
            let i = choose|i: int| 0 <= i < q[k1].len() && q[k1][i] == '[';
            assert(q[k1][i] == p[k1][i]);
            assert(!free_of(p[k1], '['));
            assert(free_of(p[k2], ']'));
            assert forall|j: int| 0 <= j < q[k2].len() implies q[k2][j] != ']' by {
                assert(q[k2][j] == p[k2][j]);
            }
        }
    }
}

/// The lines of text: none holds a line break, and they keep the text's
/// lack of closable tags.
proof fn lemma_lines_props(t: Seq<char>)
    ensures
        forall|k: int| 0 <= k < lines(t).len() ==> free_of(#[trigger] lines(t)[k], '\n'),
        no_close_after_open(t) ==> lines_no_close_after_open(lines(t)),
{
    let sp = split(t, '\n');
    lemma_split_terminated(t, Seq::empty());
    assert(Seq::<char>::empty() + t + seq!['\n'] =~= t + seq!['\n']);
    assert(sp.len() > 0);
    lemma_split_pieces_free(t, Seq::empty());
    lemma_newline_plain();
    let ls = lines(t);
    let p = if sp.last().len() == 0 {
        sp.drop_last()
    } else {
        sp
    };
    assert(ls.len() == p.len());
    assert forall|k: int| 0 <= k < ls.len() implies (#[trigger] ls[k]).len() <= p[k].len() && forall|i: int|
        0 <= i < ls[k].len() ==> ls[k][i] == p[k][i] by {
        if k < sp.len() - 1 {
            assert(ls[k] == strip_cr(sp[k]));
        } else {
            assert(ls[k] == sp[k]);
        }
        assert(p[k] == sp[k]);
    }
    assert forall|k: int| 0 <= k < p.len() implies free_of(#[trigger] p[k], '\n') by {
        assert(p[k] == sp[k]);
    }
    lemma_lines_nb_prefixes(p, ls);
    if no_close_after_open(t) {
        lemma_nb_concat(t, seq!['\n']);
        lemma_nb_terminated(sp);
        assert forall|k1: int, k2: int|
            0 <= k1 < k2 < p.len() && !free_of(p[k1], '[') implies free_of(p[k2], ']') by {
            assert(p[k1] == sp[k1] && p[k2] == sp[k2]);
        }
        assert forall|k: int| 0 <= k < p.len() implies no_close_after_open(#[trigger] p[k]) by {
            assert(p[k] == sp[k]);
        }
    }
}

proof fn lemma_trim_keeps(y: Seq<char>, x: char)
    ensures
        no_close_after_open(y) ==> no_close_after_open(trim(y)),
        free_of(y, x) ==> free_of(trim(y), x),
{
    let a = leading_ws(y);
    lemma_leading_ws(y);
    let u = y.skip(a as int);
    lemma_trailing_ws(u);
    let v = trim(y);
    assert(v =~= u.take(u.len() - trailing_ws(u)));
    assert forall|i: int| 0 <= i < v.len() implies v[i] == y[a + i] by {}
    if no_close_after_open(y) {
        assert forall|i: int, j: int| 0 <= i < j < v.len() && v[i] == '[' implies v[j] != ']' by {
            assert(v[i] == y[a + i] && v[j] == y[a + j]);
        }
    }
    if free_of(y, x) {
        assert forall|i: int| 0 <= i < v.len() implies v[i] != x by {
            assert(v[i] == y[a + i]);
        }
    }
}

proof fn lemma_strip_free(s: Seq<char>, i: int, x: char)
    requires
        has_no_link(s),
        0 <= i,
    ensures
        (forall|j: int| i <= j < s.len() ==> s[j] != x) ==> free_of(strip_markup_from(s, i), x),
    decreases s.len() - i,
{
    if i < s.len() {
        lemma_clean_step(s, i);
        assert(url_open_at(s, i) is None);
        let (emit, next, stop) = clean_step(s, i);
        assert(emit == Seq::<char>::empty() || emit == seq![s[i]]);
        if !stop {
            lemma_strip_free(s, next, x);
            if forall|j: int| i <= j < s.len() ==> s[j] != x {
                assert(seq![s[i]][0] == s[i]);
                lemma_free_concat(emit, strip_markup_from(s, next), x);
            }
        }
    }
}

proof fn lemma_strip_nb(s: Seq<char>, i: int)
    requires
        has_no_link(s),
        0 <= i,
    ensures
        no_close_after_open(strip_markup_from(s, i)),
    decreases s.len() - i,
{
    if i < s.len() {
        lemma_clean_step(s, i);
        assert(url_open_at(s, i) is None);
        let (emit, next, stop) = clean_step(s, i);
        assert(emit == Seq::<char>::empty() || emit == seq![s[i]]);
        if stop {
            assert(emit == Seq::<char>::empty());
        } else {
            let rest = strip_markup_from(s, next);
            lemma_strip_nb(s, next);
            assert(seq![s[i]][0] == s[i]);
            if emit == seq![s[i]] && s[i] == '[' {
                assert(find_char_from(s, i, ']') is None);
                lemma_find_char_from(s, i, ']');
                lemma_strip_free(s, next, ']');
            }
            lemma_nb_concat(emit, rest);
            assert(no_close_after_open(emit));
        }
    }
}

proof fn lemma_strip_identity(s: Seq<char>, i: int)
    requires
        no_close_after_open(s),
        0 <= i <= s.len(),
    ensures
        strip_markup_from(s, i) == s.skip(i),
    decreases s.len() - i,
{
    if i < s.len() {
        lemma_find_char_from(s, i, ']');
        lemma_find_char_from(s, i + 5, ']');
        if s[i] == '[' {
            if tag_close_at(s, i, spoiler_tag()) is Some {
                assert(s[i + 1 + spoiler_tag().len()] == ']');
            }
            if find_char_from(s, i, ']') is Some {
                let p = find_char_from(s, i, ']')->0;
                assert(s[p] == ']');
            }
            if url_open_at(s, i) is Some {
                let p = find_char_from(s, i + 5, ']')->0;
                assert(s[p] == ']');
            }
        }
        assert(clean_step(s, i) == (seq![s[i]], i + 1, false));
        lemma_strip_identity(s, i + 1);
        assert(s.skip(i) =~= seq![s[i]] + s.skip(i + 1));
    } else {
        assert(s.skip(i) =~= Seq::<char>::empty());
    }
}

/// Cleaning is idempotent on descriptions without links, unless the first
/// cleaning leaves a carriage return right before a line break (as it does
/// for `a\r\r\nb`, which cleans to `a\r\nb` and then to `a\nb`): cleaning
/// what [`clean_description`](crate::bbcode::clean_description) gives back
/// then changes nothing, since it has no tag left that can close, no run of
/// blank lines and no whitespace at its ends.
pub proof fn law_clean_description_is_idempotent(s: Seq<char>)
    requires
        has_no_link(s),
        no_cr_before_newline(cleaned_description(s)),
    ensures
        cleaned_description(cleaned_description(s)) == cleaned_description(s),
{
    let out = strip_markup(s);
    lemma_strip_nb(s, 0);
    let ls = lines(out);
    lemma_lines_props(out);
    let m = collapsed(ls, false);
    lemma_collapse_is_terminated(ls, false);
    lemma_collapsed_single(ls, false);
    lemma_collapsed_entries(ls, false, |e: Seq<char>| free_of(e, '\n'));
    lemma_lines_nb_collapsed(ls, false);
    let y = terminated(m);
    lemma_nb_terminated(m);
    let c = trim(y);
    assert(cleaned_description(s) == c);
    lemma_trim_start_terminated(m);
    let f = strip_front(m);
    lemma_trim_end_terminated(f);
    let cc = strip_back(f);
    assert(c == joined(cc));
    lemma_strip_front_props(m, '\n');
    lemma_strip_back_props(f, '\n');
    lemma_trim_keeps(y, '\n');
    lemma_strip_identity(c, 0);
    assert(c.skip(0) =~= c);
    assert(strip_markup(c) == c);
    if cc.len() == 0 {
        assert(c =~= Seq::<char>::empty());
        let e = Seq::<char>::empty();
        assert(split(e, '\n') == seq![e]);
        assert(seq![e].last() == e);
        assert(seq![e].drop_last() =~= Seq::<Seq<char>>::empty());
        assert(lines(e) =~= Seq::<Seq<char>>::empty());
        assert(collapse_blank_lines(Seq::<Seq<char>>::empty(), false) == e);
        assert(trim(e) =~= e);
    } else {
        lemma_terminated_no_cr_end(cc.drop_last(), cc.last());
        assert forall|k: int| 0 <= k < cc.len() - 1 implies !ends_with_cr(#[trigger] cc[k]) by {
            assert(cc.drop_last()[k] == cc[k]);
        }
        lemma_lines_of_joined(cc);
        lemma_collapse_single(cc, false);
        lemma_terminated_joined(cc);
        lemma_joined_ends(cc);
        lemma_trim_newline_ended(c);
    }
}

proof fn lemma_lines_of_joined_stripping(c: Seq<Seq<char>>)
    requires
        c.len() > 0,
        forall|k: int| 0 <= k < c.len() ==> free_of(#[trigger] c[k], '\n'),
        c.last().len() > 0,
    ensures
        lines(joined(c)) == c.drop_last().map_values(|l: Seq<char>| strip_cr(l)).push(c.last()),
{
    let q = c.drop_last();
    assert forall|k: int| 0 <= k < q.len() implies free_of(#[trigger] q[k], '\n') by {
        assert(q[k] == c[k]);
    }
    lemma_split_joined(q, c.last());
    assert(q.push(c.last()) =~= c);
    assert(split(joined(c), '\n') == c);
}

proof fn lemma_no_cr_end_joined(p: Seq<Seq<char>>, x: Seq<char>)
    requires
        forall|k: int| 0 <= k < p.len() ==> free_of(#[trigger] p[k], '\n'),
        forall|k: int| 0 <= k < p.len() ==> !ends_with_cr(#[trigger] p[k]),
        free_of(x, '\n'),
    ensures
        no_cr_before_newline(terminated(p) + x),
    decreases p.len(),
{
    let t = terminated(p) + x;
    if p.len() == 0 {
        assert(t =~= x);
        assert forall|i: int| 0 <= i < t.len() - 1 && #[trigger] t[i] == '\r' implies t[i + 1] != '\n' by {
            assert(t[i + 1] == x[i + 1]);
        }
    } else {
        let rest = p.drop_first();
        let tail = terminated(rest) + x;
        assert(t =~= p[0] + seq!['\n'] + tail);
        assert forall|k: int| 0 <= k < rest.len() implies free_of(#[trigger] rest[k], '\n') && !ends_with_cr(
            rest[k],
        ) by {
            assert(rest[k] == p[k + 1]);
        }
        lemma_no_cr_end_joined(rest, x);
        assert(free_of(p[0], '\n') && !ends_with_cr(p[0]));
        let n = p[0].len();
        assert forall|i: int| 0 <= i < t.len() - 1 && #[trigger] t[i] == '\r' implies t[i + 1] != '\n' by {
            if i < n - 1 {
                assert(t[i + 1] == p[0][i + 1]);
            } else if i == n - 1 {
                assert(t[i] == p[0][n - 1]);
            } else if i == n {
                assert(t[i] == '\n');
            } else {
                assert(t[i] == tail[i - n - 1]);
                assert(t[i + 1] == tail[i - n]);
            }
        }
    }
}

proof fn lemma_terminated_shorter(p: Seq<Seq<char>>, q: Seq<Seq<char>>)
    requires
        p.len() == q.len(),
        forall|k: int| 0 <= k < p.len() ==> (#[trigger] q[k]).len() <= p[k].len(),
    ensures
        terminated(q).len() <= terminated(p).len(),
        (exists|k: int| 0 <= k < p.len() && (#[trigger] q[k]).len() < p[k].len()) ==> terminated(q).len()
            < terminated(p).len(),
    decreases p.len(),
{
    if p.len() > 0 {
        let pr = p.drop_first();
        let qr = q.drop_first();
        assert forall|k: int| 0 <= k < pr.len() implies (#[trigger] qr[k]).len() <= pr[k].len() by {
            assert(qr[k] == q[k + 1] && pr[k] == p[k + 1]);
        }
        lemma_terminated_shorter(pr, qr);
        if exists|k: int| 0 <= k < p.len() && (#[trigger] q[k]).len() < p[k].len() {
            let k = choose|k: int| 0 <= k < p.len() && (#[trigger] q[k]).len() < p[k].len();
            if k > 0 {
                assert(qr[k - 1] == q[k] && pr[k - 1] == p[k]);
            }
        }
    }
}

/// Where the first cleaning of a link-free description leaves a carriage
/// return right before a line break, cleaning again changes the text: the
/// line reading drops that carriage return. So the idempotence law leaves
/// out only the inputs on which it fails.
pub proof fn law_clean_description_changes_after_cr_newline(s: Seq<char>)
    requires
        has_no_link(s),
        !no_cr_before_newline(cleaned_description(s)),
    ensures
        cleaned_description(cleaned_description(s)) != cleaned_description(s),
{
    let out = strip_markup(s);
    lemma_strip_nb(s, 0);
    let ls = lines(out);
    lemma_lines_props(out);
    let m = collapsed(ls, false);
    lemma_collapse_is_terminated(ls, false);
    lemma_collapsed_single(ls, false);
    lemma_collapsed_entries(ls, false, |e: Seq<char>| free_of(e, '\n'));
    lemma_lines_nb_collapsed(ls, false);
    let y = terminated(m);
    lemma_nb_terminated(m);
    let c = trim(y);
    lemma_trim_start_terminated(m);
    let f = strip_front(m);
    lemma_trim_end_terminated(f);
    let cc = strip_back(f);
    assert(c == joined(cc));
    lemma_strip_front_props(m, '\n');
    lemma_strip_back_props(f, '\n');
    lemma_trim_keeps(y, '\n');
    lemma_strip_identity(c, 0);
    assert(c.skip(0) =~= c);
    assert(strip_markup(c) == c);
    if cc.len() == 0 {
        assert(c.len() == 0);
    } else {
        let q = cc.drop_last();
        assert forall|k: int| 0 <= k < q.len() implies free_of(#[trigger] q[k], '\n') by {
            assert(q[k] == cc[k]);
        }
        if forall|k: int| 0 <= k < q.len() ==> !ends_with_cr(#[trigger] q[k]) {
            lemma_no_cr_end_joined(q, cc.last());
        }
        let k0 = choose|k: int| 0 <= k < q.len() && ends_with_cr(#[trigger] q[k]);
        let qs = q.map_values(|l: Seq<char>| strip_cr(l));
        let cp = qs.push(cc.last());
        lemma_lines_of_joined_stripping(cc);
        assert(lines(c) == cp);
        lemma_blank_iff(Seq::<char>::empty());
        assert forall|k: int| 0 <= k < q.len() implies (#[trigger] qs[k]).len() <= q[k].len() && (is_blank(qs[k])
            <==> is_blank(q[k])) && (ends_with_cr(q[k]) ==> qs[k].len() < q[k].len()) && (q[k].len() > 0
            && !is_whitespace(q[k][0]) ==> qs[k].len() > 0 && qs[k][0] == q[k][0]) by {
            let x = q[k];
            lemma_blank_iff(x);
            lemma_blank_iff(strip_cr(x));
            if ends_with_cr(x) {
                let y2 = x.drop_last();
                assert(is_whitespace('\r'));
                if all_ws(y2) {
                    assert forall|i: int| 0 <= i < x.len() implies is_whitespace(#[trigger] x[i]) by {
                        if i < y2.len() {
                            assert(x[i] == y2[i]);
                        }
                    }
                }
                if all_ws(x) {
                    assert forall|i: int| 0 <= i < y2.len() implies is_whitespace(#[trigger] y2[i]) by {
                        assert(x[i] == y2[i]);
                    }
                }
                if x.len() > 0 && !is_whitespace(x[0]) {
                    assert(x[0] != '\r');
                    assert(x.len() > 1);
                    assert(y2[0] == x[0]);
                }
            }
        }
        assert forall|k: int| 0 <= k < cp.len() && is_blank(#[trigger] cp[k]) implies cp[k].len() == 0 by {
            if k < q.len() {
                assert(cp[k] == qs[k]);
                assert(q[k] == cc[k]);
                assert(cc[k].len() == 0);
            } else {
                assert(cp[k] == cc.last());
            }
        }
        assert forall|k: int| 0 <= k < cp.len() - 1 && is_blank(#[trigger] cp[k]) implies !is_blank(cp[k + 1]) by {
            assert(cp[k] == qs[k] && q[k] == cc[k]);
            if k + 1 < q.len() {
                assert(cp[k + 1] == qs[k + 1] && q[k + 1] == cc[k + 1]);
            } else {
                assert(cp[k + 1] == cc.last());
            }
        }
        lemma_collapse_single(cp, false);
        lemma_terminated_joined(cp);
        assert(cp.drop_last() =~= qs);
        assert(cp.last() == cc.last());
        if q.len() > 0 {
            assert(q[0] == cc[0]);
            assert(cp[0] == qs[0]);
        } else {
            assert(cp[0] == cc[0]);
        }
        lemma_joined_ends(cp);
        lemma_trim_newline_ended(joined(cp));
        assert(cleaned_description(c) == joined(cp));
        lemma_terminated_shorter(q, qs);
        assert(qs[k0].len() < q[k0].len());
        assert(joined(cp).len() < joined(cc).len());
    }
}

} // verus!
