//! Small string utilities shared by the rest of the crate.

use vstd::prelude::*;

verus! {

/// Appends one character to a `String` (`String::push`).
#[verifier::external_body]
pub(crate) fn push_char(s: &mut String, c: char)
    ensures
        final(s)@ == old(s)@.push(c),
{
    s.push(c);
}

/// Appends a string slice to a `String`.
pub(crate) fn push_str(s: &mut String, t: &str)
    ensures
        final(s)@ == old(s)@ + t@,
{
    s.append(t);
}

/// The characters of `s`, in order.
pub fn chars_of(s: &str) -> (v: Vec<char>)
    ensures
        v@ == s@,
{
    let mut v: Vec<char> = Vec::new();
    for c in it: s.chars()
        invariant
            v@ == it.seq().take(it.index() as int),
    {
        v.push(c);
    }
    v
}

} // verus!

verus! {

/// Unicode `White_Space`, the property `char::is_whitespace` tests.
pub open spec fn is_whitespace(c: char) -> bool {
    ||| '\u{9}' <= c <= '\u{d}'
    ||| c == ' '
    ||| c == '\u{85}'
    ||| c == '\u{a0}'
    ||| c == '\u{1680}'
    ||| '\u{2000}' <= c <= '\u{200a}'
    ||| c == '\u{2028}'
    ||| c == '\u{2029}'
    ||| c == '\u{202f}'
    ||| c == '\u{205f}'
    ||| c == '\u{3000}'
}

/// Executable [`is_whitespace`].
pub fn char_is_whitespace(c: char) -> (b: bool)
    ensures
        b == is_whitespace(c),
{
    ('\u{9}' <= c && c <= '\u{d}') || c == ' ' || c == '\u{85}' || c == '\u{a0}' || c == '\u{1680}'
        || ('\u{2000}' <= c && c <= '\u{200a}') || c == '\u{2028}' || c == '\u{2029}' || c
        == '\u{202f}' || c == '\u{205f}' || c == '\u{3000}'
}

/// Number of leading whitespace characters of `s`.
pub open spec fn leading_ws(s: Seq<char>) -> nat
    decreases s.len(),
{
    if s.len() > 0 && is_whitespace(s[0]) {
        1 + leading_ws(s.drop_first())
    } else {
        0
    }
}

/// Number of trailing whitespace characters of `s`.
pub open spec fn trailing_ws(s: Seq<char>) -> nat
    decreases s.len(),
{
    if s.len() > 0 && is_whitespace(s.last()) {
        1 + trailing_ws(s.drop_last())
    } else {
        0
    }
}

/// `s` without leading whitespace (`str::trim_start`).
pub open spec fn trim_start(s: Seq<char>) -> Seq<char> {
    s.skip(leading_ws(s) as int)
}

/// `s` without trailing whitespace (`str::trim_end`).
pub open spec fn trim_end(s: Seq<char>) -> Seq<char> {
    s.take(s.len() - trailing_ws(s))
}

/// `s` without leading and trailing whitespace (`str::trim`).
pub open spec fn trim(s: Seq<char>) -> Seq<char> {
    trim_end(trim_start(s))
}

pub proof fn lemma_leading_ws(s: Seq<char>)
    ensures
        leading_ws(s) <= s.len(),
        forall|k: int| 0 <= k < leading_ws(s) ==> is_whitespace(#[trigger] s[k]),
        leading_ws(s) < s.len() ==> !is_whitespace(s[leading_ws(s) as int]),
    decreases s.len(),
{
    if s.len() > 0 && is_whitespace(s[0]) {
        lemma_leading_ws(s.drop_first());
        assert forall|k: int| 0 <= k < leading_ws(s) implies is_whitespace(#[trigger] s[k]) by {
            if k > 0 {
                assert(s[k] == s.drop_first()[k - 1]);
            }
        }
    }
}

pub proof fn lemma_trailing_ws(s: Seq<char>)
    ensures
        trailing_ws(s) <= s.len(),
        forall|k: int| s.len() - trailing_ws(s) <= k < s.len() ==> is_whitespace(#[trigger] s[k]),
        trailing_ws(s) < s.len() ==> !is_whitespace(s[s.len() - trailing_ws(s) - 1]),
    decreases s.len(),
{
    if s.len() > 0 && is_whitespace(s.last()) {
        lemma_trailing_ws(s.drop_last());
        assert forall|k: int| s.len() - trailing_ws(s) <= k < s.len() implies is_whitespace(
            #[trigger] s[k],
        ) by {
            if k < s.len() - 1 {
                assert(s[k] == s.drop_last()[k]);
            }
        }
    }
}

/// Index of the first non-whitespace character of `v` at or after `from`.
pub fn skip_ws(v: &Vec<char>, from: usize) -> (i: usize)
    requires
        from <= v@.len(),
    ensures
        from <= i <= v@.len(),
        i == from + leading_ws(v@.skip(from as int)),
{
    let mut i = from;
    proof {
        lemma_leading_ws(v@.skip(from as int));
    }
    while i < v.len() && char_is_whitespace(v[i])
        invariant
            from <= i <= v@.len(),
            i - from <= leading_ws(v@.skip(from as int)),
            leading_ws(v@.skip(from as int)) <= v@.len() - from,
            forall|k: int| 0 <= k < leading_ws(v@.skip(from as int)) ==> is_whitespace(
                #[trigger] v@.skip(from as int)[k],
            ),
            leading_ws(v@.skip(from as int)) < v@.len() - from ==> !is_whitespace(
                v@.skip(from as int)[leading_ws(v@.skip(from as int)) as int],
            ),
        decreases v@.len() - i,
    {
        proof {
            if i - from == leading_ws(v@.skip(from as int)) {
                assert(v@.skip(from as int)[i - from] == v@[i as int]);
            }
        }
        i = i + 1;
    }
    proof {
        if i < v@.len() && i - from < leading_ws(v@.skip(from as int)) {
            assert(v@.skip(from as int)[i - from] == v@[i as int]);
        }
    }
    i
}

/// Index one past the last non-whitespace character of `v` before `to`, not
/// below `from`.
pub fn skip_ws_back(v: &Vec<char>, from: usize, to: usize) -> (j: usize)
    requires
        from <= to <= v@.len(),
    ensures
        from <= j <= to,
        j == to - trailing_ws(v@.subrange(from as int, to as int)),
{
    let ghost s = v@.subrange(from as int, to as int);
    proof {
        lemma_trailing_ws(s);
    }
    let mut j = to;
    while j > from && char_is_whitespace(v[j - 1])
        invariant
            from <= j <= to <= v@.len(),
            s == v@.subrange(from as int, to as int),
            to - j <= trailing_ws(s),
            trailing_ws(s) <= s.len(),
            forall|k: int| s.len() - trailing_ws(s) <= k < s.len() ==> is_whitespace(#[trigger] s[k]),
            trailing_ws(s) < s.len() ==> !is_whitespace(s[s.len() - trailing_ws(s) - 1]),
        decreases j,
    {
        proof {
            if to - j == trailing_ws(s) {
                assert(s[j - 1 - from] == v@[j - 1]);
            }
        }
        j = j - 1;
    }
    proof {
        if j > from && to - j < trailing_ws(s) {
            assert(s[j - 1 - from] == v@[j - 1]);
        }
    }
    j
}

/// The characters of `v` in `from..to` as a `String`.
pub fn string_of(v: &Vec<char>, from: usize, to: usize) -> (s: String)
    requires
        from <= to <= v@.len(),
    ensures
        s@ == v@.subrange(from as int, to as int),
{
    let mut s = String::new();
    let mut i = from;
    while i < to
        invariant
            from <= i <= to <= v@.len(),
            s@ == v@.subrange(from as int, i as int),
        decreases to - i,
    {
        push_char(&mut s, v[i]);
        assert(v@.subrange(from as int, i + 1) =~= v@.subrange(from as int, i as int).push(v@[i as int]));
        i = i + 1;
    }
    s
}

/// `str::trim` of a string.
pub fn trim_string(t: &str) -> (s: String)
    ensures
        s@ == trim(t@),
{
    let v = chars_of(t);
    let i = skip_ws(&v, 0);
    let j = skip_ws_back(&v, i, v.len());
    assert(v@.skip(0) =~= v@);
    assert(trim_start(v@) =~= v@.subrange(i as int, v@.len() as int));
    let s = string_of(&v, i, j);
    assert(s@ =~= trim(t@));
    s
}

/// Decimal digits of `n`, most significant first, without leading zeros
/// ("0" for zero).
pub open spec fn decimal(n: nat) -> Seq<char>
    decreases n,
{
    if n < 10 {
        seq![digit_char(n)]
    } else {
        decimal(n / 10).push(digit_char(n % 10))
    }
}

/// The ASCII digit for `d < 10`.
pub open spec fn digit_char(d: nat) -> char {
    (d + 48) as char
}

/// Appends the decimal digits of `n` to `out`.
pub fn push_decimal(out: &mut String, n: usize)
    ensures
        final(out)@ == old(out)@ + decimal(n as nat),
    decreases n,
{
    if n < 10 {
        push_char(out, digit_of(n));
        assert(decimal(n as nat) =~= seq![digit_char(n as nat)]);
    } else {
        push_decimal(out, n / 10);
        push_char(out, digit_of(n % 10));
    }
}

fn digit_of(d: usize) -> (c: char)
    requires
        d < 10,
    ensures
        c == digit_char(d as nat),
{
    let b: u8 = (d as u8) + 48;
    let c = b as char;
    assert(c == digit_char(d as nat)) by {
        assert(b as char == (d + 48) as char);
    }
    c
}

/// `n` rendered in decimal.
pub fn decimal_string(n: usize) -> (s: String)
    ensures
        s@ == decimal(n as nat),
{
    let mut s = String::new();
    push_decimal(&mut s, n);
    assert(s@ =~= decimal(n as nat));
    s
}

} // verus!

verus! {

/// `c` is an ASCII digit.
pub open spec fn is_digit(c: char) -> bool {
    '0' <= c <= '9'
}

/// Value of an ASCII digit.
pub open spec fn digit_value(c: char) -> nat {
    (c as int - 48) as nat
}

/// Every character of `d` is an ASCII digit.
pub open spec fn all_digits(d: Seq<char>) -> bool {
    forall|k: int| 0 <= k < d.len() ==> is_digit(#[trigger] d[k])
}

/// The number a string of decimal digits denotes.
pub open spec fn digits_value(d: Seq<char>) -> nat
    decreases d.len(),
{
    if d.len() == 0 {
        0
    } else {
        digits_value(d.drop_last()) * 10 + digit_value(d.last())
    }
}

/// The digits of a decimal digit string `d` of a value bounded by `max`
/// parse to that value: `None` if `d` is empty, holds a non-digit, or
/// denotes a number above `max`.
pub open spec fn parse_digits(d: Seq<char>, max: nat) -> Option<nat> {
    if d.len() > 0 && all_digits(d) && digits_value(d) <= max {
        Some(digits_value(d))
    } else {
        None
    }
}

/// Digit strings only grow in value when extended.
pub proof fn lemma_digits_value_monotone(d: Seq<char>, i: int)
    requires
        0 <= i <= d.len(),
        all_digits(d),
    ensures
        digits_value(d.take(i)) <= digits_value(d),
    decreases d.len() - i,
{
    if i < d.len() {
        lemma_digits_value_monotone(d, i + 1);
        assert(d.take(i + 1).drop_last() =~= d.take(i));
    } else {
        assert(d.take(i) =~= d);
    }
}

/// Parses `v[from..to]` as decimal digits with value at most `max`, per
/// [`parse_digits`].
pub fn parse_digits_in(v: &Vec<char>, from: usize, to: usize, max: u64) -> (r: Option<u64>)
    requires
        from <= to <= v@.len(),
    ensures
        match parse_digits(v@.subrange(from as int, to as int), max as nat) {
            Some(n) => r == Some(n as u64),
            None => r is None,
        },
{
    let ghost d = v@.subrange(from as int, to as int);
    if from == to {
        return None;
    }
    let mut i = from;
    let mut acc: u64 = 0;
    while i < to
        invariant
            from <= i <= to <= v@.len(),
            d == v@.subrange(from as int, to as int),
            all_digits(d.take(i - from)),
            acc as nat == digits_value(d.take(i - from)),
            acc <= max,
        decreases to - i,
    {
        let c = v[i];
        if !('0' <= c && c <= '9') {
            proof {
                assert(d[i - from] == c);
            }
            return None;
        }
        let dig: u64 = ((c as u32) - 48) as u64;
        assert(d.take(i - from + 1).drop_last() =~= d.take(i - from));
        assert(d.take(i - from + 1).last() == c);
        if dig > max || acc > (max - dig) / 10 {
            proof {
                assert(digits_value(d.take(i - from + 1)) > max) by (nonlinear_arith)
                    requires
                        digits_value(d.take(i - from + 1)) == acc * 10 + dig,
                        dig > max || acc > (max - dig) / 10,
                ;
            }
            proof {
                if all_digits(d) {
                    lemma_digits_value_monotone(d, i - from + 1);
                }
            }
            return None;
        }
        proof {
            assert(acc * 10 + dig <= max) by (nonlinear_arith)
                requires
                    dig <= max,
                    acc <= (max - dig) / 10,
            ;
        }
        acc = acc * 10 + dig;
        i = i + 1;
    }
    assert(d.take(i - from) =~= d);
    Some(acc)
}

} // verus!

verus! {

/// Pieces of `s` between occurrences of `sep` (`str::split` with a char),
/// where `cur` is the piece collected so far.
pub open spec fn split_acc(s: Seq<char>, sep: char, cur: Seq<char>) -> Seq<Seq<char>>
    decreases s.len(),
{
    if s.len() == 0 {
        seq![cur]
    } else if s[0] == sep {
        seq![cur] + split_acc(s.drop_first(), sep, Seq::empty())
    } else {
        split_acc(s.drop_first(), sep, cur.push(s[0]))
    }
}

/// The pieces `str::split(sep)` yields on `s`.
pub open spec fn split(s: Seq<char>, sep: char) -> Seq<Seq<char>> {
    split_acc(s, sep, Seq::empty())
}

/// Views of a sequence of strings.
pub open spec fn views(v: Seq<String>) -> Seq<Seq<char>> {
    v.map_values(|p: String| p@)
}

/// Splits `s` at every `sep`.
pub fn split_char(s: &str, sep: char) -> (pieces: Vec<String>)
    ensures
        views(pieces@) == split(s@, sep),
{
    let v = chars_of(s);
    let mut pieces: Vec<String> = Vec::new();
    let mut cur = String::new();
    let mut i: usize = 0;
    assert(v@.skip(0) =~= v@);
    while i < v.len()
        invariant
            i <= v@.len(),
            v@ == s@,
            views(pieces@) + split_acc(v@.skip(i as int), sep, cur@) == split(s@, sep),
        decreases v@.len() - i,
    {
        let c = v[i];
        assert(v@.skip(i as int).drop_first() =~= v@.skip(i + 1));
        assert(v@.skip(i as int)[0] == c);
        if c == sep {
            let ghost old_pieces = views(pieces@);
            let ghost old_cur = cur@;
            pieces.push(cur);
            cur = String::new();
            assert(views(pieces@) =~= old_pieces.push(old_cur));
            assert(views(pieces@) + split_acc(v@.skip(i + 1), sep, cur@) =~= old_pieces + (seq![old_cur]
                + split_acc(v@.skip(i + 1), sep, Seq::empty())));
        } else {
            push_char(&mut cur, c);
        }
        i = i + 1;
    }
    let ghost old_pieces = views(pieces@);
    let ghost old_cur = cur@;
    pieces.push(cur);
    assert(views(pieces@) =~= old_pieces.push(old_cur));
    assert(v@.skip(i as int) =~= Seq::<char>::empty());
    assert(views(pieces@) =~= old_pieces + seq![old_cur]);
    pieces
}

/// What `str::parse::<u16>` makes of `s`: an optional `+` (not on its own)
/// followed by decimal digits of a value that fits.
pub open spec fn u16_from_str(s: Seq<char>) -> Option<nat> {
    parse_digits(
        if s.len() > 1 && s[0] == '+' {
            s.drop_first()
        } else {
            s
        },
        u16::MAX as nat,
    )
}

/// `str::parse::<u16>`.
pub fn parse_u16(s: &str) -> (r: Option<u16>)
    ensures
        match u16_from_str(s@) {
            Some(n) => r == Some(n as u16),
            None => r is None,
        },
{
    let v = chars_of(s);
    let from: usize = if v.len() > 1 && v[0] == '+' {
        1
    } else {
        0
    };
    assert(v@.subrange(from as int, v@.len() as int) =~= if s@.len() > 1 && s@[0] == '+' {
        s@.drop_first()
    } else {
        s@
    });
    match parse_digits_in(&v, from, v.len(), u16::MAX as u64) {
        Some(n) => Some(n as u16),
        None => None,
    }
}

/// The first index at or after `from` where `c` stands.
pub open spec fn find_char_from(s: Seq<char>, from: int, c: char) -> Option<int>
    decreases s.len() - from,
{
    if from < 0 || from >= s.len() {
        None
    } else if s[from] == c {
        Some(from)
    } else {
        find_char_from(s, from + 1, c)
    }
}

pub proof fn lemma_find_char_from(s: Seq<char>, from: int, c: char)
    ensures
        find_char_from(s, from, c) matches Some(p) ==> from <= p < s.len() && s[p] == c && forall|j: int|
            from <= j < p ==> s[j] != c,
        find_char_from(s, from, c) is None && 0 <= from ==> forall|j: int| from <= j < s.len() ==> s[j] != c,
    decreases s.len() - from,
{
    if from < 0 || from >= s.len() {
    } else if s[from] == c {
    } else {
        lemma_find_char_from(s, from + 1, c);
    }
}

/// `r` as an optional integer.
pub open spec fn opt_int(r: Option<usize>) -> Option<int> {
    match r {
        Some(x) => Some(x as int),
        None => None,
    }
}

/// The first index at or after `from` where `c` stands.
pub fn find_char_after(v: &Vec<char>, from: usize, c: char) -> (r: Option<usize>)
    ensures
        opt_int(r) == find_char_from(v@, from as int, c),
{
    let mut p = from;
    while p < v.len()
        invariant
            from <= p,
            find_char_from(v@, from as int, c) == find_char_from(v@, p as int, c),
        decreases v@.len() - p,
    {
        if v[p] == c {
            return Some(p);
        }
        p = p + 1;
    }
    None
}

/// `l` without one trailing carriage return.
pub open spec fn strip_cr(l: Seq<char>) -> Seq<char> {
    if l.len() > 0 && l.last() == '\r' {
        l.drop_last()
    } else {
        l
    }
}

/// The non-empty trimmed pieces among `pieces`, in order.
pub open spec fn nonempty_trimmed(pieces: Seq<Seq<char>>) -> Seq<Seq<char>>
    decreases pieces.len(),
{
    if pieces.len() == 0 {
        Seq::empty()
    } else {
        let rest = nonempty_trimmed(pieces.drop_last());
        let t = trim(pieces.last());
        if t.len() == 0 {
            rest
        } else {
            rest.push(t)
        }
    }
}

/// The non-empty trimmed forms of the strings of `ps`, in order.
pub fn nonempty_trimmed_of(ps: &Vec<String>) -> (r: Vec<String>)
    ensures
        views(r@) == nonempty_trimmed(views(ps@)),
{
    let mut r: Vec<String> = Vec::new();
    let mut k: usize = 0;
    while k < ps.len()
        invariant
            k <= ps@.len(),
            views(r@) == nonempty_trimmed(views(ps@).take(k as int)),
        decreases ps@.len() - k,
    {
        let t = trim_string(ps[k].as_str());
        let ghost before = views(r@);
        let ghost after = views(ps@).take(k + 1);
        proof {
            assert(after.drop_last() =~= views(ps@).take(k as int));
            assert(after.last() == ps@[k as int]@);
        }
        if !t.as_str().is_empty() {
            r.push(t);
            assert(views(r@) =~= before.push(t@));
        }
        k = k + 1;
    }
    assert(views(ps@).take(k as int) =~= views(ps@));
    r
}

/// What `str::parse::<u32>` makes of `s`: an optional `+` (not on its own)
/// followed by decimal digits of a value that fits.
pub open spec fn u32_from_str(s: Seq<char>) -> Option<nat> {
    parse_digits(
        if s.len() > 1 && s[0] == '+' {
            s.drop_first()
        } else {
            s
        },
        u32::MAX as nat,
    )
}

/// `str::parse::<u32>`.
pub fn parse_u32(s: &str) -> (r: Option<u32>)
    ensures
        match u32_from_str(s@) {
            Some(n) => r == Some(n as u32),
            None => r is None,
        },
{
    let v = chars_of(s);
    let from: usize = if v.len() > 1 && v[0] == '+' {
        1
    } else {
        0
    };
    assert(v@.subrange(from as int, v@.len() as int) =~= if s@.len() > 1 && s@[0] == '+' {
        s@.drop_first()
    } else {
        s@
    });
    match parse_digits_in(&v, from, v.len(), u32::MAX as u64) {
        Some(n) => Some(n as u32),
        None => None,
    }
}

/// The whitespace-separated words of `s`, where `cur` is the word collected
/// so far.
pub open spec fn words_acc(s: Seq<char>, cur: Seq<char>) -> Seq<Seq<char>>
    decreases s.len(),
{
    if s.len() == 0 {
        if cur.len() > 0 {
            seq![cur]
        } else {
            Seq::empty()
        }
    } else if is_whitespace(s[0]) {
        (if cur.len() > 0 {
            seq![cur]
        } else {
            Seq::empty()
        }) + words_acc(s.drop_first(), Seq::empty())
    } else {
        words_acc(s.drop_first(), cur.push(s[0]))
    }
}

/// The words `str::split_whitespace` yields on `s`.
pub open spec fn words(s: Seq<char>) -> Seq<Seq<char>> {
    words_acc(s, Seq::empty())
}

/// `str::split_whitespace`.
pub fn words_of(s: &str) -> (ws: Vec<String>)
    ensures
        views(ws@) == words(s@),
{
    let v = chars_of(s);
    let mut ws: Vec<String> = Vec::new();
    let mut cur = String::new();
    let mut i: usize = 0;
    assert(v@.skip(0) =~= v@);
    while i < v.len()
        invariant
            i <= v@.len(),
            v@ == s@,
            views(ws@) + words_acc(v@.skip(i as int), cur@) == words(s@),
        decreases v@.len() - i,
    {
        let c = v[i];
        assert(v@.skip(i as int).drop_first() =~= v@.skip(i + 1));
        assert(v@.skip(i as int)[0] == c);
        if char_is_whitespace(c) {
            let ghost old_ws = views(ws@);
            let ghost old_cur = cur@;
            if !cur.as_str().is_empty() {
                ws.push(cur);
                assert(views(ws@) =~= old_ws.push(old_cur));
                assert(views(ws@) + words_acc(v@.skip(i + 1), Seq::empty()) =~= old_ws + (seq![old_cur]
                    + words_acc(v@.skip(i + 1), Seq::empty())));
            } else {
                assert(views(ws@) + words_acc(v@.skip(i + 1), Seq::empty()) =~= old_ws + (Seq::empty()
                    + words_acc(v@.skip(i + 1), Seq::empty())));
            }
            cur = String::new();
        } else {
            push_char(&mut cur, c);
        }
        i = i + 1;
    }
    assert(v@.skip(i as int) =~= Seq::<char>::empty());
    if !cur.as_str().is_empty() {
        let ghost old_ws = views(ws@);
        let ghost old_cur = cur@;
        ws.push(cur);
        assert(views(ws@) =~= old_ws.push(old_cur));
        assert(views(ws@) =~= old_ws + seq![old_cur]);
    } else {
        assert(views(ws@) =~= views(ws@) + Seq::<Seq<char>>::empty());
    }
    ws
}

/// The words joined without separator (`concat`).
pub open spec fn concat_all(ws: Seq<Seq<char>>) -> Seq<char>
    decreases ws.len(),
{
    if ws.len() == 0 {
        Seq::empty()
    } else {
        concat_all(ws.drop_last()) + ws.last()
    }
}

/// Concatenates strings.
pub fn concat_strings(ws: &Vec<String>) -> (s: String)
    ensures
        s@ == concat_all(views(ws@)),
{
    let mut s = String::new();
    let mut k: usize = 0;
    while k < ws.len()
        invariant
            k <= ws@.len(),
            s@ == concat_all(views(ws@).take(k as int)),
        decreases ws@.len() - k,
    {
        proof {
            assert(views(ws@).take(k + 1).drop_last() =~= views(ws@).take(k as int));
            assert(views(ws@).take(k + 1).last() == ws@[k as int]@);
        }
        push_str(&mut s, ws[k].as_str());
        k = k + 1;
    }
    assert(views(ws@).take(k as int) =~= views(ws@));
    s
}

/// `s` with every `c` removed.
pub open spec fn without_char(s: Seq<char>, c: char) -> Seq<char>
    decreases s.len(),
{
    if s.len() == 0 {
        Seq::empty()
    } else if s.last() == c {
        without_char(s.drop_last(), c)
    } else {
        without_char(s.drop_last(), c).push(s.last())
    }
}

/// Removes every `c` from `s` (`str::replace(c, "")`).
pub fn remove_char(s: &str, c: char) -> (r: String)
    ensures
        r@ == without_char(s@, c),
{
    let v = chars_of(s);
    let mut r = String::new();
    let mut k: usize = 0;
    while k < v.len()
        invariant
            k <= v@.len(),
            v@ == s@,
            r@ == without_char(v@.take(k as int), c),
        decreases v@.len() - k,
    {
        proof {
            assert(v@.take(k + 1).drop_last() =~= v@.take(k as int));
        }
        if v[k] != c {
            push_char(&mut r, v[k]);
        }
        k = k + 1;
    }
    assert(v@.take(k as int) =~= v@);
    r
}

/// Zero-width non-joiners removed, as ichiran's JSON text is read.
pub fn strip_zwnj(s: &str) -> (r: String)
    ensures
        r@ == without_char(s@, '\u{200C}'),
{
    remove_char(s, '\u{200C}')
}

/// `a` comes no later than `b` in the order of `String`: character by
/// character by code point, a prefix before what extends it. (UTF-8 keeps
/// code point order, so this is the byte order `String` compares by.)
pub open spec fn text_le(a: Seq<char>, b: Seq<char>) -> bool
    decreases a.len(),
{
    if a.len() == 0 {
        true
    } else if b.len() == 0 {
        false
    } else if a[0] != b[0] {
        a[0] < b[0]
    } else {
        text_le(a.drop_first(), b.drop_first())
    }
}

pub proof fn lemma_text_le_total(a: Seq<char>, b: Seq<char>)
    ensures
        text_le(a, b) || text_le(b, a),
    decreases a.len(),
{
    if a.len() > 0 && b.len() > 0 && a[0] == b[0] {
        lemma_text_le_total(a.drop_first(), b.drop_first());
    }
}

pub proof fn lemma_text_le_transitive(a: Seq<char>, b: Seq<char>, c: Seq<char>)
    requires
        text_le(a, b),
        text_le(b, c),
    ensures
        text_le(a, c),
    decreases a.len(),
{
    if a.len() > 0 && b.len() > 0 && c.len() > 0 && a[0] == b[0] && b[0] == c[0] {
        lemma_text_le_transitive(a.drop_first(), b.drop_first(), c.drop_first());
    }
}

pub proof fn lemma_text_le_antisymmetric(a: Seq<char>, b: Seq<char>)
    requires
        text_le(a, b),
        text_le(b, a),
    ensures
        a == b,
    decreases a.len(),
{
    if a.len() > 0 && b.len() > 0 {
        lemma_text_le_antisymmetric(a.drop_first(), b.drop_first());
        assert(a =~= seq![a[0]] + a.drop_first());
        assert(b =~= seq![b[0]] + b.drop_first());
    } else {
        assert(a =~= b);
    }
}

/// Compares two texts in the order of [`text_le`].
pub(crate) fn text_le_exec(a: &String, b: &String) -> (r: bool)
    ensures
        r == text_le(a@, b@),
{
    let va = chars_of(a.as_str());
    let vb = chars_of(b.as_str());
    let mut i: usize = 0;
    assert(va@.skip(0) =~= va@);
    assert(vb@.skip(0) =~= vb@);
    while i < va.len() && i < vb.len() && va[i] == vb[i]
        invariant
            i <= va@.len(),
            i <= vb@.len(),
            text_le(va@, vb@) == text_le(va@.skip(i as int), vb@.skip(i as int)),
        decreases va@.len() - i,
    {
        assert(va@.skip(i as int).drop_first() =~= va@.skip(i + 1));
        assert(vb@.skip(i as int).drop_first() =~= vb@.skip(i + 1));
        assert(va@.skip(i as int)[0] == va@[i as int]);
        assert(vb@.skip(i as int)[0] == vb@[i as int]);
        i = i + 1;
    }
    if i == va.len() {
        true
    } else if i == vb.len() {
        false
    } else {
        assert(va@.skip(i as int)[0] == va@[i as int]);
        assert(vb@.skip(i as int)[0] == vb@[i as int]);
        va[i] < vb[i]
    }
}

/// The texts in ascending order (see [`text_le`]).
pub fn sort_texts(texts: Vec<String>) -> (r: Vec<String>)
    ensures
        r@.to_multiset() == texts@.to_multiset(),
        forall|i: int, j: int| 0 <= i < j < r@.len() ==> text_le(#[trigger] r@[i]@, #[trigger] r@[j]@),
{
    broadcast use vstd::seq_lib::group_to_multiset_ensures, vstd::multiset::group_multiset_axioms;

    let ghost all = texts@;
    let mut rest = texts;
    let mut r: Vec<String> = Vec::new();
    assert(r@.to_multiset().add(rest@.to_multiset()) =~= all.to_multiset());
    while rest.len() > 0
        invariant
            r@.to_multiset().add(rest@.to_multiset()) == all.to_multiset(),
            forall|i: int, j: int| 0 <= i < j < r@.len() ==> text_le(#[trigger] r@[i]@, #[trigger] r@[j]@),
        decreases rest@.len(),
    {
        let ghost before = rest@;
        let m = rest.pop().unwrap();
        proof {
            assert(before =~= rest@.push(m));
        }
        let mut p: usize = 0;
        while p < r.len() && !text_le_exec(&m, &r[p])
            invariant
                p <= r@.len(),
                forall|j: int| 0 <= j < p ==> !text_le(m@, #[trigger] r@[j]@),
            decreases r@.len() - p,
        {
            p = p + 1;
        }
        let ghost old_r = r@;
        r.insert(p, m);
        proof {
            assert(r@ == old_r.insert(p as int, m));
            assert forall|i: int, j: int| 0 <= i < j < r@.len() implies text_le(#[trigger] r@[i]@, #[trigger] r@[j]@) by {
                let ri = r@[i];
                let rj = r@[j];
                if j < p {
                    assert(ri == old_r[i] && rj == old_r[j]);
                } else if j == p {
                    assert(ri == old_r[i]);
                    lemma_text_le_total(m@, old_r[i]@);
                } else if i > p {
                    assert(ri == old_r[i - 1] && rj == old_r[j - 1]);
                } else if i == p {
                    assert(rj == old_r[j - 1]);
                    assert(text_le(m@, old_r[p as int]@));
                    if j - 1 > p {
                        lemma_text_le_transitive(m@, old_r[p as int]@, old_r[j - 1]@);
                    }
                } else {
                    assert(ri == old_r[i] && rj == old_r[j - 1]);
                }
            }
            vstd::seq_lib::to_multiset_insert(old_r, p as int, m);
            vstd::seq_lib::to_multiset_build(rest@, m);
            assert(r@.to_multiset().add(rest@.to_multiset()) =~= all.to_multiset());
        }
    }
    assert(rest@ =~= Seq::<String>::empty());
    assert(r@.to_multiset().add(rest@.to_multiset()) =~= r@.to_multiset());
    r
}

} // verus!
