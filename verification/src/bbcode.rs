//! Cleaning of VNDB descriptions: BBCode markup is stripped, spoilers are
//! dropped, link text is kept and runs of blank lines are collapsed.
//!
//! Positions here are character indices into the description. Every tag the
//! cleaner looks for is ASCII, so they name the same places as byte offsets.

use vstd::prelude::*;

use crate::text::{
    chars_of, find_char_after, find_char_from, lemma_find_char_from, opt_int, push_char, split, split_char,
    string_of, strip_cr, trim, trim_string, views,
};

verus! {

/// `c` with ASCII upper-case letters folded to lower case, as a code point.
pub open spec fn ascii_fold(c: char) -> int {
    let x = c as int;
    if 65 <= x <= 90 {
        x + 32
    } else {
        x
    }
}

/// `pat` occurs at `i` in `s`, ignoring ASCII case.
pub open spec fn ci_match_at(s: Seq<char>, i: int, pat: Seq<char>) -> bool {
    &&& 0 <= i
    &&& i + pat.len() <= s.len()
    &&& forall|k: int| 0 <= k < pat.len() ==> ascii_fold(#[trigger] s[i + k]) == ascii_fold(pat[k])
}

/// `spoiler`
pub open spec fn spoiler_tag() -> Seq<char> {
    seq!['s', 'p', 'o', 'i', 'l', 'e', 'r']
}

/// `/spoiler`
pub open spec fn spoiler_end_tag() -> Seq<char> {
    seq!['/'] + spoiler_tag()
}

/// `url=`
pub open spec fn url_open_tag() -> Seq<char> {
    seq!['u', 'r', 'l', '=']
}

/// `url`
pub open spec fn url_tag() -> Seq<char> {
    seq!['u', 'r', 'l']
}

/// `/url`
pub open spec fn url_end_tag() -> Seq<char> {
    seq!['/'] + url_tag()
}

/// When `[tag]` (ASCII case ignored) starts at `i`, the index past its `]`.
pub open spec fn tag_close_at(s: Seq<char>, i: int, tag: Seq<char>) -> Option<int> {
    if 0 <= i < s.len() && s[i] == '[' && ci_match_at(s, i + 1, tag) && i + 1 + tag.len() < s.len()
        && s[i + 1 + tag.len()] == ']' {
        Some(i + 1 + tag.len() + 1)
    } else {
        None
    }
}

/// The first index at or after `from` where `needle` occurs, ASCII case
/// ignored.
pub open spec fn find_ci(s: Seq<char>, from: int, needle: Seq<char>) -> Option<int>
    decreases s.len() - from,
{
    if from < 0 || from + needle.len() > s.len() {
        None
    } else if ci_match_at(s, from, needle) {
        Some(from)
    } else {
        find_ci(s, from + 1, needle)
    }
}

/// When `[url=...]` starts at `i`, the index past its `]`.
pub open spec fn url_open_at(s: Seq<char>, i: int) -> Option<int> {
    if 0 <= i < s.len() && s[i] == '[' && ci_match_at(s, i + 1, url_open_tag()) {
        match find_char_from(s, i + 5, ']') {
            Some(p) => Some(p + 1),
            None => None,
        }
    } else {
        None
    }
}

/// `[/tag]`, the closing form of a tag.
pub open spec fn close_needle(tag: Seq<char>) -> Seq<char> {
    seq!['[', '/'] + tag + seq![']']
}

/// Where the first `[/tag]` (ASCII case ignored) begins at or after `from`.
pub open spec fn close_tag_at(s: Seq<char>, from: int, tag: Seq<char>) -> Option<int> {
    find_ci(s, from, close_needle(tag))
}

/// One step of the cleaner at `i`: the text it emits, where it goes on, and
/// whether it stops there.
pub open spec fn clean_step(s: Seq<char>, i: int) -> (Seq<char>, int, bool) {
    let plain = if s[i] == '[' && find_char_from(s, i, ']') is Some {
        (Seq::<char>::empty(), find_char_from(s, i, ']')->0 + 1, false)
    } else {
        (seq![s[i]], i + 1, false)
    };
    match tag_close_at(s, i, spoiler_tag()) {
        Some(end) => match close_tag_at(s, end, spoiler_tag()) {
            Some(cs) => match tag_close_at(s, cs, spoiler_end_tag()) {
                Some(after) => (Seq::<char>::empty(), after, false),
                None => (Seq::<char>::empty(), i, true),
            },
            None => (Seq::<char>::empty(), i, true),
        },
        None => match url_open_at(s, i) {
            Some(ao) => match close_tag_at(s, ao, url_tag()) {
                Some(cs) => match tag_close_at(s, cs, url_end_tag()) {
                    Some(ac) => (s.subrange(ao, cs), ac, false),
                    None => (s.subrange(ao, cs) + plain.0, plain.1, false),
                },
                None => plain,
            },
            None => plain,
        },
    }
}

pub proof fn lemma_find_ci(s: Seq<char>, from: int, needle: Seq<char>)
    ensures
        find_ci(s, from, needle) matches Some(p) ==> from <= p && p + needle.len() <= s.len()
            && ci_match_at(s, p, needle),
    decreases s.len() - from,
{
    if from < 0 || from + needle.len() > s.len() {
    } else if ci_match_at(s, from, needle) {
    } else {
        lemma_find_ci(s, from + 1, needle);
    }
}

/// Every step that does not stop moves forward, and no step goes past the end.
pub proof fn lemma_clean_step(s: Seq<char>, i: int)
    requires
        0 <= i < s.len(),
    ensures
        !clean_step(s, i).2 ==> i < clean_step(s, i).1 <= s.len(),
{
    lemma_find_char_from(s, i, ']');
    let plain = if s[i] == '[' && find_char_from(s, i, ']') is Some {
        (Seq::<char>::empty(), find_char_from(s, i, ']')->0 + 1, false)
    } else {
        (seq![s[i]], i + 1, false)
    };
    assert(i < plain.1 <= s.len());
    match tag_close_at(s, i, spoiler_tag()) {
        Some(end) => {
            lemma_find_ci(s, end, close_needle(spoiler_tag()));
        },
        None => {
            if let Some(ao) = url_open_at(s, i) {
                lemma_find_char_from(s, i + 5, ']');
                assert(i < ao <= s.len());
                lemma_find_ci(s, ao, close_needle(url_tag()));
            }
        },
    }
}

/// What the markup pass leaves of `s` from `i` on.
pub open spec fn strip_markup_from(s: Seq<char>, i: int) -> Seq<char>
    decreases s.len() - i,
{
    if i < 0 || i >= s.len() {
        Seq::empty()
    } else {
        let (emit, next, stop) = clean_step(s, i);
        if stop {
            emit
        } else {
            proof {
                lemma_clean_step(s, i);
            }
            emit + strip_markup_from(s, next)
        }
    }
}

/// The code point of `c`, ASCII upper case folded to lower.
fn fold_code(c: char) -> (x: u32)
    ensures
        x == ascii_fold(c),
{
    let x = c as u32;
    if 65 <= x && x <= 90 {
        x + 32
    } else {
        x
    }
}

/// Whether `pat` occurs at `i` in `v`, ASCII case ignored.
fn ci_match(v: &Vec<char>, i: usize, pat: &Vec<char>) -> (b: bool)
    ensures
        b == ci_match_at(v@, i as int, pat@),
{
    if i > v.len() || pat.len() > v.len() - i {
        return false;
    }
    let n = v.len();
    let mut k: usize = 0;
    while k < pat.len()
        invariant
            k <= pat@.len(),
            n == v@.len(),
            i + pat@.len() <= v@.len(),
            forall|m: int| 0 <= m < k ==> ascii_fold(#[trigger] v@[i + m]) == ascii_fold(pat@[m]),
        decreases pat@.len() - k,
    {
        if fold_code(v[i + k]) != fold_code(pat[k]) {
            return false;
        }
        k = k + 1;
    }
    true
}

/// When `[tag]` (ASCII case ignored) starts at `i`, the index past its `]`.
fn match_tag_close(v: &Vec<char>, i: usize, tag: &Vec<char>) -> (r: Option<usize>)
    ensures
        opt_int(r) == tag_close_at(v@, i as int, tag@),
{
    if i < v.len() && v[i] == '[' && tag.len() < v.len() - i - 1 && ci_match(v, i + 1, tag) && v[i
        + 1 + tag.len()] == ']' {
        Some(i + 1 + tag.len() + 1)
    } else {
        None
    }
}

/// When `[url=...]` starts at `i`, the index past its `]`.
fn match_url_open(v: &Vec<char>, i: usize, url_open: &Vec<char>) -> (r: Option<usize>)
    requires
        url_open@ == url_open_tag(),
    ensures
        opt_int(r) == url_open_at(v@, i as int),
{
    if i < v.len() && v[i] == '[' && ci_match(v, i + 1, url_open) {
        match find_char_after(v, i + 5, ']') {
            Some(p) => {
                proof {
                    lemma_find_char_from(v@, i + 5, ']');
                }
                Some(p + 1)
            },
            None => None,
        }
    } else {
        None
    }
}

/// The first index at or after `from` where `needle` occurs, ASCII case
/// ignored.
fn find_ci_after(v: &Vec<char>, from: usize, needle: &Vec<char>) -> (r: Option<usize>)
    requires
        from <= v@.len(),
    ensures
        opt_int(r) == find_ci(v@, from as int, needle@),
{
    let mut p = from;
    while needle.len() <= v.len() - p
        invariant
            from <= p <= v@.len(),
            find_ci(v@, from as int, needle@) == find_ci(v@, p as int, needle@),
        decreases v@.len() - p,
    {
        if ci_match(v, p, needle) {
            return Some(p);
        }
        if p == v.len() {
            return None;
        }
        p = p + 1;
    }
    None
}

/// Where the first `[/tag]` begins at or after `from` (see
/// [`close_tag_at`]).
fn find_close_tag(v: &Vec<char>, from: usize, tag: &Vec<char>) -> (r: Option<usize>)
    requires
        from <= v@.len(),
    ensures
        opt_int(r) == close_tag_at(v@, from as int, tag@),
{
    let mut needle: Vec<char> = vec!['[', '/'];
    let mut k: usize = 0;
    while k < tag.len()
        invariant
            k <= tag@.len(),
            needle@ == seq!['[', '/'] + tag@.take(k as int),
        decreases tag@.len() - k,
    {
        needle.push(tag[k]);
        assert(tag@.take(k + 1) =~= tag@.take(k as int).push(tag@[k as int]));
        k = k + 1;
    }
    assert(tag@.take(k as int) =~= tag@);
    needle.push(']');
    assert(needle@ =~= close_needle(tag@));
    find_ci_after(v, from, &needle)
}

/// The tags the cleaner looks for.
struct Tags {
    spoiler: Vec<char>,
    spoiler_end: Vec<char>,
    url_open: Vec<char>,
    url: Vec<char>,
    url_end: Vec<char>,
}

impl Tags {
    spec fn wf(&self) -> bool {
        &&& self.spoiler@ == spoiler_tag()
        &&& self.spoiler_end@ == spoiler_end_tag()
        &&& self.url_open@ == url_open_tag()
        &&& self.url@ == url_tag()
        &&& self.url_end@ == url_end_tag()
    }

    fn new() -> (t: Tags)
        ensures
            t.wf(),
    {
        let t = Tags {
            spoiler: vec!['s', 'p', 'o', 'i', 'l', 'e', 'r'],
            spoiler_end: vec!['/', 's', 'p', 'o', 'i', 'l', 'e', 'r'],
            url_open: vec!['u', 'r', 'l', '='],
            url: vec!['u', 'r', 'l'],
            url_end: vec!['/', 'u', 'r', 'l'],
        };
        assert(t.spoiler@ =~= spoiler_tag());
        assert(t.spoiler_end@ =~= spoiler_end_tag());
        assert(t.url_open@ =~= url_open_tag());
        assert(t.url@ =~= url_tag());
        assert(t.url_end@ =~= url_end_tag());
        t
    }
}

/// Appends `v[from..to]` to `out`.
fn push_range(out: &mut String, v: &Vec<char>, from: usize, to: usize)
    requires
        from <= to <= v@.len(),
    ensures
        final(out)@ == old(out)@ + v@.subrange(from as int, to as int),
{
    let mut k = from;
    while k < to
        invariant
            from <= k <= to <= v@.len(),
            out@ == old(out)@ + v@.subrange(from as int, k as int),
        decreases to - k,
    {
        push_char(out, v[k]);
        assert(v@.subrange(from as int, k + 1) =~= v@.subrange(from as int, k as int).push(v@[k as int]));
        k = k + 1;
    }
}

/// Performs [`clean_step`] at `i`, appending what it emits to `out`.
fn clean_step_at(v: &Vec<char>, i: usize, tags: &Tags, out: &mut String) -> (r: (usize, bool))
    requires
        i < v@.len(),
        tags.wf(),
    ensures
        final(out)@ == old(out)@ + clean_step(v@, i as int).0,
        r.0 == clean_step(v@, i as int).1,
        r.1 == clean_step(v@, i as int).2,
{
    proof {
        lemma_clean_step(v@, i as int);
        lemma_find_char_from(v@, i as int, ']');
    }
    if let Some(end) = match_tag_close(v, i, &tags.spoiler) {
        if let Some(cs) = find_close_tag(v, end, &tags.spoiler) {
            proof {
                lemma_find_ci(v@, end as int, close_needle(spoiler_tag()));
            }
            if let Some(after) = match_tag_close(v, cs, &tags.spoiler_end) {
                return (after, false);
            }
        }
        return (i, true);
    }
    let ghost before = out@;
    let mut pushed = false;
    if let Some(ao) = match_url_open(v, i, &tags.url_open) {
        proof {
            lemma_find_char_from(v@, i + 5, ']');
        }
        if let Some(cs) = find_close_tag(v, ao, &tags.url) {
            proof {
                lemma_find_ci(v@, ao as int, close_needle(url_tag()));
            }
            push_range(out, v, ao, cs);
            if let Some(ac) = match_tag_close(v, cs, &tags.url_end) {
                return (ac, false);
            }
        }
    }
    let n = v.len();
    if v[i] == '[' {
        if let Some(e) = find_char_after(v, i, ']') {
            return (e + 1, false);
        }
    }
    push_char(out, v[i]);
    (i + 1, false)
}

/// What the markup pass leaves of `s`.
pub open spec fn strip_markup(s: Seq<char>) -> Seq<char> {
    strip_markup_from(s, 0)
}

/// Drops spoilers and markup from the characters of `v`.
fn strip_markup_of(v: &Vec<char>) -> (out: String)
    ensures
        out@ == strip_markup(v@),
{
    let tags = Tags::new();
    let mut out = String::new();
    let mut i: usize = 0;
    loop
        invariant_except_break
            i <= v@.len(),
            tags.wf(),
            strip_markup(v@) == out@ + strip_markup_from(v@, i as int),
        ensures
            out@ == strip_markup(v@),
        decreases v@.len() - i,
    {
        if i >= v.len() {
            assert(out@ =~= out@ + strip_markup_from(v@, i as int));
            break;
        }
        let ghost old_out = out@;
        let (next, stop) = clean_step_at(v, i, &tags, &mut out);
        proof {
            lemma_clean_step(v@, i as int);
        }
        if stop {
            assert(strip_markup_from(v@, i as int) == clean_step(v@, i as int).0);
            break;
        }
        assert(strip_markup_from(v@, i as int) == clean_step(v@, i as int).0 + strip_markup_from(
            v@,
            next as int,
        ));
        assert(strip_markup(v@) =~= out@ + strip_markup_from(v@, next as int));
        i = next;
    }
    out
}

/// The lines `str::lines` yields on `s`: split at `\n`, a `\r` before the
/// `\n` dropped, and no empty line after a final `\n`.
pub open spec fn lines(s: Seq<char>) -> Seq<Seq<char>> {
    let pieces = split(s, '\n');
    let ended = pieces.drop_last().map_values(|l: Seq<char>| strip_cr(l));
    if pieces.last().len() == 0 {
        ended
    } else {
        ended.push(pieces.last())
    }
}

/// `l` holds nothing but whitespace.
pub open spec fn is_blank(l: Seq<char>) -> bool {
    trim(l).len() == 0
}

/// The lines joined with a `\n` after each, where a run of blank lines
/// gives a single `\n`; `after_blank` says a blank line came just before.
pub open spec fn collapse_blank_lines(ls: Seq<Seq<char>>, after_blank: bool) -> Seq<char>
    decreases ls.len(),
{
    if ls.len() == 0 {
        Seq::empty()
    } else if is_blank(ls[0]) {
        (if after_blank {
            Seq::empty()
        } else {
            seq!['\n']
        }) + collapse_blank_lines(ls.drop_first(), true)
    } else {
        ls[0] + seq!['\n'] + collapse_blank_lines(ls.drop_first(), false)
    }
}

/// A VNDB description with its markup stripped, its spoilers dropped, its
/// runs of blank lines collapsed and its ends trimmed.
pub open spec fn cleaned_description(s: Seq<char>) -> Seq<char> {
    trim(collapse_blank_lines(lines(strip_markup(s)), false))
}

/// `str::lines`.
pub fn lines_of(s: &str) -> (ls: Vec<String>)
    ensures
        views(ls@) == lines(s@),
{
    let pieces = split_char(s, '\n');
    proof {
        lemma_split_nonempty(s@, '\n');
    }
    let last = pieces.len() - 1;
    let mut ls: Vec<String> = Vec::new();
    let mut k: usize = 0;
    while k < last
        invariant
            k <= last,
            last + 1 == pieces@.len(),
            views(pieces@) == split(s@, '\n'),
            views(ls@) == split(s@, '\n').take(k as int).map_values(|l: Seq<char>| strip_cr(l)),
        decreases last - k,
    {
        let v = chars_of(pieces[k].as_str());
        let end = if v.len() > 0 && v[v.len() - 1] == '\r' {
            v.len() - 1
        } else {
            v.len()
        };
        let line = string_of(&v, 0, end);
        let ghost old_ls = views(ls@);
        ls.push(line);
        proof {
            assert(views(pieces@)[k as int] == pieces@[k as int]@);
            assert(line@ =~= strip_cr(split(s@, '\n')[k as int]));
            assert(views(ls@) =~= old_ls.push(line@));
            assert(split(s@, '\n').take(k + 1) =~= split(s@, '\n').take(k as int).push(
                split(s@, '\n')[k as int],
            ));
            assert(views(ls@) =~= split(s@, '\n').take(k + 1).map_values(
                |l: Seq<char>| strip_cr(l),
            ));
        }
        k = k + 1;
    }
    proof {
        assert(split(s@, '\n').take(k as int) =~= split(s@, '\n').drop_last());
        assert(views(pieces@)[last as int] == pieces@[last as int]@);
    }
    if !pieces[last].as_str().is_empty() {
        let ghost old_ls = views(ls@);
        ls.push(pieces[last].clone());
        assert(views(ls@) =~= old_ls.push(split(s@, '\n').last()));
    }
    ls
}

pub proof fn lemma_split_acc_nonempty(s: Seq<char>, sep: char, cur: Seq<char>)
    ensures
        crate::text::split_acc(s, sep, cur).len() >= 1,
    decreases s.len(),
{
    if s.len() > 0 {
        lemma_split_acc_nonempty(s.drop_first(), sep, if s[0] == sep {
            Seq::empty()
        } else {
            cur.push(s[0])
        });
    }
}

pub proof fn lemma_split_nonempty(s: Seq<char>, sep: char)
    ensures
        split(s, sep).len() >= 1,
{
    lemma_split_acc_nonempty(s, sep, Seq::empty());
}

/// Strips VNDB BBCode markup from a description and drops the contents of
/// any `[spoiler]...[/spoiler]` region; the text of a `[url=...]` link is
/// kept. Runs of blank lines become one and the ends are trimmed.
pub fn clean_description(s: &str) -> (r: String)
    ensures
        r@ == cleaned_description(s@),
{
    let v = chars_of(s);
    let out = strip_markup_of(&v);
    let ls = lines_of(out.as_str());
    let mut result = String::new();
    let mut after_blank = false;
    let mut k: usize = 0;
    assert(views(ls@).skip(0) =~= views(ls@));
    assert(result@ + collapse_blank_lines(views(ls@), false) =~= collapse_blank_lines(views(ls@), false));
    while k < ls.len()
        invariant
            k <= ls@.len(),
            views(ls@) == lines(strip_markup(s@)),
            collapse_blank_lines(views(ls@), false) == result@ + collapse_blank_lines(
                views(ls@).skip(k as int),
                after_blank,
            ),
        decreases ls@.len() - k,
    {
        let line = &ls[k];
        let ghost rest = views(ls@).skip(k as int);
        assert(rest[0] == line@);
        assert(rest.drop_first() =~= views(ls@).skip(k + 1));
        let t = trim_string(line.as_str());
        if t.as_str().is_empty() {
            if !after_blank {
                push_char(&mut result, '\n');
            }
            after_blank = true;
        } else {
            result.append(line.as_str());
            push_char(&mut result, '\n');
            after_blank = false;
        }
        k = k + 1;
    }
    assert(views(ls@).skip(k as int) =~= Seq::<Seq<char>>::empty());
    assert(result@ =~= collapse_blank_lines(views(ls@), false));
    trim_string(result.as_str())
}

/// Text without a `[` has no markup: the markup pass keeps it whole, so
/// cleaning only collapses its blank lines and trims it.
pub proof fn law_text_without_brackets_keeps_its_characters(s: Seq<char>)
    requires
        forall|k: int| 0 <= k < s.len() ==> s[k] != '[',
    ensures
        strip_markup(s) == s,
{
    lemma_no_brackets_from(s, 0);
    assert(s.skip(0) =~= s);
}

proof fn lemma_no_brackets_from(s: Seq<char>, i: int)
    requires
        0 <= i <= s.len(),
        forall|k: int| 0 <= k < s.len() ==> s[k] != '[',
    ensures
        strip_markup_from(s, i) == s.skip(i),
    decreases s.len() - i,
{
    if i < s.len() {
        lemma_no_brackets_from(s, i + 1);
        assert(clean_step(s, i) == (seq![s[i]], i + 1, false));
        assert(s.skip(i) =~= seq![s[i]] + s.skip(i + 1));
    } else {
        assert(s.skip(i) =~= Seq::<char>::empty());
    }
}

} // verus!
