//! Common Lisp string literals for expressions sent to ichiran.

use vstd::prelude::*;

use crate::text::{chars_of, push_char};

verus! {

/// The escaped form of one character inside a Lisp string literal: `"` and
/// `\` get a backslash, everything else (newlines, non-ASCII) is literal.
pub open spec fn lisp_escape_char(c: char) -> Seq<char> {
    if c == '"' || c == '\\' {
        seq!['\\', c]
    } else {
        seq![c]
    }
}

/// `s` with every character escaped by [`lisp_escape_char`].
pub open spec fn lisp_escape(s: Seq<char>) -> Seq<char>
    decreases s.len(),
{
    if s.len() == 0 {
        Seq::empty()
    } else {
        lisp_escape_char(s[0]) + lisp_escape(s.drop_first())
    }
}

/// What the Lisp reader makes of the body of a string literal (the text
/// between the quotes): a backslash takes the next character literally; an
/// unescaped `"` or a trailing lone backslash make the body invalid.
pub open spec fn lisp_read_body(t: Seq<char>) -> Option<Seq<char>>
    decreases t.len(),
{
    if t.len() == 0 {
        Some(Seq::empty())
    } else if t[0] == '"' {
        None
    } else if t[0] == '\\' {
        if t.len() < 2 {
            None
        } else {
            match lisp_read_body(t.skip(2)) {
                Some(r) => Some(seq![t[1]] + r),
                None => None,
            }
        }
    } else {
        match lisp_read_body(t.drop_first()) {
            Some(r) => Some(seq![t[0]] + r),
            None => None,
        }
    }
}

pub proof fn lemma_lisp_escape_push(s: Seq<char>, c: char)
    ensures
        lisp_escape(s.push(c)) == lisp_escape(s) + lisp_escape_char(c),
    decreases s.len(),
{
    if s.len() == 0 {
        assert(s.push(c).drop_first() =~= Seq::<char>::empty());
        assert(s.push(c)[0] == c);
        assert(lisp_escape(Seq::<char>::empty()) == Seq::<char>::empty());
        assert(lisp_escape(s) == Seq::<char>::empty());
        assert(lisp_escape(s.push(c)) =~= lisp_escape_char(c));
    } else {
        lemma_lisp_escape_push(s.drop_first(), c);
        assert(s.push(c).drop_first() =~= s.drop_first().push(c));
        assert(lisp_escape(s.push(c)) =~= lisp_escape(s) + lisp_escape_char(c));
    }
}

/// Escapes `"` and `\` so that `text` can be placed between the quotes of a
/// Lisp string literal.
pub fn lisp_escape_string(text: &str) -> (out: String)
    ensures
        out@ == lisp_escape(text@),
{
    let v = chars_of(text);
    let mut out = String::new();
    let mut i: usize = 0;
    while i < v.len()
        invariant
            i <= v@.len(),
            v@ == text@,
            out@ == lisp_escape(v@.take(i as int)),
        decreases v@.len() - i,
    {
        let c = v[i];
        if c == '"' || c == '\\' {
            push_char(&mut out, '\\');
        }
        push_char(&mut out, c);
        proof {
            lemma_lisp_escape_push(v@.take(i as int), c);
            assert(v@.take(i + 1) =~= v@.take(i as int).push(c));
            assert(out@ =~= lisp_escape(v@.take(i + 1)));
        }
        i = i + 1;
    }
    assert(v@.take(i as int) =~= v@);
    out
}

/// `s` as a complete Lisp string literal: a quote, the escaped text, a
/// quote.
pub open spec fn lisp_literal(s: Seq<char>) -> Seq<char> {
    seq!['"'] + lisp_escape(s) + seq!['"']
}

/// Renders `s` as a Common Lisp `"..."` literal.
pub fn lisp_string(s: &str) -> (out: String)
    ensures
        out@ == lisp_literal(s@),
{
    let mut out = String::new();
    push_char(&mut out, '"');
    let body = lisp_escape_string(s);
    crate::text::push_str(&mut out, body.as_str());
    push_char(&mut out, '"');
    assert(out@ =~= lisp_literal(s@));
    out
}

/// Reading back the body of an escaped literal gives the original text:
/// the escaping loses nothing and never closes the literal early.
pub proof fn law_lisp_escape_reads_back(s: Seq<char>)
    ensures
        lisp_read_body(lisp_escape(s)) == Some(s),
    decreases s.len(),
{
    if s.len() > 0 {
        law_lisp_escape_reads_back(s.drop_first());
        let t = lisp_escape(s);
        let rest = lisp_escape(s.drop_first());
        if s[0] == '"' || s[0] == '\\' {
            assert(t.skip(2) =~= rest);
            assert(seq![s[0]] + s.drop_first() =~= s);
        } else {
            assert(t.drop_first() =~= rest);
            assert(seq![s[0]] + s.drop_first() =~= s);
        }
    }
}

} // verus!
