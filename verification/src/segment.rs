//! Segment-translation output format: the grammar that constrains a model
//! to NDJSON translation spans, and the parsing of those spans from a
//! (possibly still streaming) response.

use vstd::prelude::*;

use crate::text::{
    chars_of, find_char_after, find_char_from, lemma_find_char_from, strip_cr, views, decimal, digits_value, is_digit, is_whitespace, leading_ws, lemma_leading_ws,
    parse_digits, parse_digits_in, push_char, push_decimal, push_str, skip_ws, string_of,
    trim_start,
};

verus! {

/// The alternatives ` "0" | "1" | ... | "<k-1>"` of the index rule.
pub open spec fn idx_alternatives(k: nat) -> Seq<char>
    decreases k,
{
    if k == 0 {
        Seq::empty()
    } else {
        idx_alternatives((k - 1) as nat) + (if k - 1 > 0 {
            " |"@
        } else {
            Seq::empty()
        }) + " \""@ + decimal((k - 1) as nat) + "\""@
    }
}

/// The GBNF grammar for `n` segments: one to `n` lines
/// `{"i":<idx>,"j":<idx>,"t":<string>}` with `idx` one of `0..n` and a JSON
/// string of at most 300 characters; for no segments, the empty output.
pub open spec fn segment_grammar(n: nat) -> Seq<char> {
    if n == 0 {
        "root ::= \"\"\n"@
    } else {
        "root ::= line{1,"@ + decimal(n) + "}\n"@
            + "line ::= \"{\\\"i\\\":\" idx \",\\\"j\\\":\" idx \",\\\"t\\\":\" string \"}\\n\""@
            + "\n"@ + "idx ::="@ + idx_alternatives(n) + "\n"@ + "string ::= \"\\\"\" string-char{0,"@
            + decimal(300) + "} \"\\\"\"\n"@
            + "string-char ::= [^\"\\\\\\x00-\\x1f] | \"\\\\\" [\"\\\\/bfnrt] | \"\\\\u\" hex hex hex hex"@
            + "\n"@ + "hex ::= [0-9a-fA-F]\n"@
    }
}

/// The root rule of the grammar for `n` segments: one to `n` lines.
pub open spec fn segment_root_rule(n: nat) -> Seq<char> {
    "root ::= line{1,"@ + decimal(n) + "}\n"@
}

/// The rule for one line of the reply, the same for every segment count.
pub open spec fn segment_line_rule() -> Seq<char> {
    "line ::= \"{\\\"i\\\":\" idx \",\\\"j\\\":\" idx \",\\\"t\\\":\" string \"}\\n\""@ + "\n"@
}

/// The index rule for `n` segments: each of `0..n` once, in order.
pub open spec fn segment_idx_rule(n: nat) -> Seq<char> {
    "idx ::="@ + idx_alternatives(n) + "\n"@
}

/// The string rules, the same for every segment count.
pub open spec fn segment_string_rules() -> Seq<char> {
    "string ::= \"\\\"\" string-char{0,"@ + decimal(300) + "} \"\\\"\"\n"@
        + "string-char ::= [^\"\\\\\\x00-\\x1f] | \"\\\\\" [\"\\\\/bfnrt] | \"\\\\u\" hex hex hex hex"@
        + "\n"@ + "hex ::= [0-9a-fA-F]\n"@
}

/// Grammars for different (non-zero) segment counts differ only in their
/// root and index rules: the line and string rules are shared.
pub proof fn law_segment_grammars_share_all_but_root_and_idx(n: nat, m: nat)
    requires
        n >= 1,
        m >= 1,
    ensures
        segment_grammar(n) == segment_root_rule(n) + segment_line_rule() + segment_idx_rule(n)
            + segment_string_rules(),
        segment_grammar(m) == segment_root_rule(m) + segment_line_rule() + segment_idx_rule(m)
            + segment_string_rules(),
{
    assert(segment_grammar(n) =~= segment_root_rule(n) + segment_line_rule() + segment_idx_rule(n)
        + segment_string_rules());
    assert(segment_grammar(m) =~= segment_root_rule(m) + segment_line_rule() + segment_idx_rule(m)
        + segment_string_rules());
}

/// The index alternatives for `k + 1` segments extend those for `k`: the
/// indices come once each, in ascending order.
pub proof fn law_idx_alternatives_extend(k: nat)
    ensures
        idx_alternatives(k + 1) == idx_alternatives(k) + (if k > 0 {
            " |"@
        } else {
            Seq::<char>::empty()
        }) + " \""@ + decimal(k) + "\""@,
{
}

/// Builds the grammar of [`segment_grammar`].
pub fn build_segment_grammar(n: usize) -> (g: String)
    ensures
        g@ == segment_grammar(n as nat),
{
    let mut g = String::new();
    if n == 0 {
        push_str(&mut g, "root ::= \"\"\n");
        return g;
    }
    push_str(&mut g, "root ::= line{1,");
    push_decimal(&mut g, n);
    push_str(&mut g, "}\n");
    push_str(&mut g, "line ::= \"{\\\"i\\\":\" idx \",\\\"j\\\":\" idx \",\\\"t\\\":\" string \"}\\n\"");
    push_str(&mut g, "\n");
    push_str(&mut g, "idx ::=");
    let ghost prefix = g@;
    let mut i: usize = 0;
    while i < n
        invariant
            i <= n,
            g@ == prefix + idx_alternatives(i as nat),
        decreases n - i,
    {
        if i > 0 {
            push_str(&mut g, " |");
        }
        push_str(&mut g, " \"");
        push_decimal(&mut g, i);
        push_str(&mut g, "\"");
        proof {
            assert(g@ =~= prefix + idx_alternatives((i + 1) as nat));
        }
        i = i + 1;
    }
    push_str(&mut g, "\n");
    push_str(&mut g, "string ::= \"\\\"\" string-char{0,");
    push_decimal(&mut g, 300);
    push_str(&mut g, "} \"\\\"\"\n");
    push_str(&mut g, "string-char ::= [^\"\\\\\\x00-\\x1f] | \"\\\\\" [\"\\\\/bfnrt] | \"\\\\u\" hex hex hex hex");
    push_str(&mut g, "\n");
    push_str(&mut g, "hex ::= [0-9a-fA-F]\n");
    assert(g@ =~= segment_grammar(n as nat));
    g
}

/// One translation span: segments `start..=end` rendered as `text`.
#[derive(Debug)]
pub struct TranslationSpan {
    pub start: usize,
    pub end: usize,
    pub text: String,
}

impl Clone for TranslationSpan {
    fn clone(&self) -> (s: Self)
        ensures
            s == *self,
    {
        TranslationSpan { start: self.start, end: self.end, text: self.text.clone() }
    }
}

/// `p` occurs in `s` at `k`.
pub open spec fn occurs_at(s: Seq<char>, p: Seq<char>, k: int) -> bool {
    0 <= k && k + p.len() <= s.len() && s.subrange(k, k + p.len()) == p
}

/// Index of the first occurrence of `p` in `s` (`str::find`).
#[verifier::opaque]
pub open spec fn find_seq(s: Seq<char>, p: Seq<char>) -> Option<int> {
    if exists|k: int| occurs_at(s, p, k) {
        Some(choose|k: int| occurs_at(s, p, k) && forall|j: int| 0 <= j < k ==> !occurs_at(s, p, j))
    } else {
        None
    }
}

proof fn lemma_find_seq(s: Seq<char>, p: Seq<char>, i: int)
    requires
        occurs_at(s, p, i),
        forall|j: int| 0 <= j < i ==> !occurs_at(s, p, j),
    ensures
        find_seq(s, p) == Some(i),
{
    reveal(find_seq);
    let k = choose|k: int| occurs_at(s, p, k) && forall|j: int| 0 <= j < k ==> !occurs_at(s, p, j);
    assert(occurs_at(s, p, k) && forall|j: int| 0 <= j < k ==> !occurs_at(s, p, j));
    if k < i {
        assert(!occurs_at(s, p, k));
    }
    if i < k {
        assert(!occurs_at(s, p, i));
    }
}

fn matches_at(v: &Vec<char>, p: &Vec<char>, k: usize) -> (b: bool)
    requires
        k + p@.len() <= v.len(),
    ensures
        b == occurs_at(v@, p@, k as int),
{
    let mut j: usize = 0;
    while j < p.len()
        invariant
            k + p@.len() <= v@.len(),
            v@.len() == v.len(),
            j <= p@.len(),
            forall|m: int| 0 <= m < j ==> v@[k + m] == p@[m],
        decreases p@.len() - j,
    {
        if v[k + j] != p[j] {
            proof {
                assert(v@.subrange(k as int, k + p@.len())[j as int] != p@[j as int]);
            }
            return false;
        }
        j = j + 1;
    }
    assert(v@.subrange(k as int, k + p@.len()) =~= p@);
    true
}

/// Finds the first occurrence of `p` in `v`.
pub fn find_in(v: &Vec<char>, p: &Vec<char>) -> (r: Option<usize>)
    ensures
        match r {
            Some(k) => find_seq(v@, p@) == Some(k as int) && occurs_at(v@, p@, k as int),
            None => find_seq(v@, p@) is None,
        },
{
    reveal(find_seq);
    if p.len() > v.len() {
        proof {
            if exists|k: int| occurs_at(v@, p@, k) {
                let k = choose|k: int| occurs_at(v@, p@, k);
                assert(occurs_at(v@, p@, k));
            }
        }
        return None;
    }
    let last = v.len() - p.len();
    let mut k: usize = 0;
    loop
        invariant
            last == v@.len() - p@.len(),
            last + p@.len() == v.len(),
            k <= last,
            forall|j: int| 0 <= j < k ==> !occurs_at(v@, p@, j),
        ensures
            forall|j: int| 0 <= j <= last ==> !occurs_at(v@, p@, j),
        decreases last - k,
    {
        if matches_at(v, p, k) {
            proof {
                lemma_find_seq(v@, p@, k as int);
            }
            return Some(k);
        }
        if k == last {
            break;
        }
        k = k + 1;
    }
    proof {
        if exists|k: int| occurs_at(v@, p@, k) {
            let j = choose|k: int| occurs_at(v@, p@, k);
            assert(occurs_at(v@, p@, j));
        }
    }
    None
}

/// Length of the run of ASCII digits at the start of `s`.
pub open spec fn leading_digits(s: Seq<char>) -> nat
    decreases s.len(),
{
    if s.len() > 0 && is_digit(s[0]) {
        1 + leading_digits(s.drop_first())
    } else {
        0
    }
}

proof fn lemma_leading_digits(s: Seq<char>)
    ensures
        leading_digits(s) <= s.len(),
        forall|k: int| 0 <= k < leading_digits(s) ==> is_digit(#[trigger] s[k]),
        leading_digits(s) < s.len() ==> !is_digit(s[leading_digits(s) as int]),
    decreases s.len(),
{
    if s.len() > 0 && is_digit(s[0]) {
        lemma_leading_digits(s.drop_first());
        assert forall|k: int| 0 <= k < leading_digits(s) implies is_digit(#[trigger] s[k]) by {
            if k > 0 {
                assert(s[k] == s.drop_first()[k - 1]);
            }
        }
    }
}

/// The text after `"<name>"`, whitespace, `:` and whitespace, if the field
/// name occurs and is followed by a colon.
pub open spec fn after_field(line: Seq<char>, name: Seq<char>) -> Option<Seq<char>> {
    let needle = seq!['"'] + name + seq!['"'];
    match find_seq(line, needle) {
        None => None,
        Some(pos) => {
            let rest = trim_start(line.skip(pos + needle.len()));
            if rest.len() > 0 && rest[0] == ':' {
                Some(trim_start(rest.drop_first()))
            } else {
                None
            }
        },
    }
}

/// The value of the numeric field `name` in a partial NDJSON line: the
/// digits right after `"<name>":`, if there are any and their value fits in
/// `usize`.
pub open spec fn int_field(line: Seq<char>, name: Seq<char>) -> Option<nat> {
    match after_field(line, name) {
        None => None,
        Some(rest) => parse_digits(rest.take(leading_digits(rest) as int), usize::MAX as nat),
    }
}

/// Index just after `"<name>":` and the whitespace around the colon, in `v`.
fn field_value_start(v: &Vec<char>, name: &str) -> (r: Option<usize>)
    ensures
        match after_field(v@, name@) {
            None => r is None,
            Some(rest) => r matches Some(i) && i <= v@.len() && v@.skip(i as int) == rest,
        },
{
    let mut needle: Vec<char> = Vec::new();
    needle.push('"');
    let nv = chars_of(name);
    let mut k: usize = 0;
    while k < nv.len()
        invariant
            k <= nv@.len(),
            needle@ == seq!['"'] + nv@.take(k as int),
        decreases nv@.len() - k,
    {
        needle.push(nv[k]);
        assert(nv@.take(k + 1) =~= nv@.take(k as int).push(nv@[k as int]));
        k = k + 1;
    }
    needle.push('"');
    assert(nv@.take(k as int) =~= nv@);
    assert(needle@ =~= seq!['"'] + name@ + seq!['"']);
    let found = find_in(v, &needle);
    if found.is_none() {
        return None;
    }
    let pos = found.unwrap();
    assert(find_seq(v@, seq!['"'] + name@ + seq!['"']) == Some(pos as int));
    let n = v.len();
    assert(pos + needle@.len() <= n);
    let after = pos + needle.len();
    let i = skip_ws(v, after);
    assert(v@.skip(after as int).skip(leading_ws(v@.skip(after as int)) as int) =~= v@.skip(i as int));
    if i < v.len() && v[i] == ':' {
        let j = skip_ws(v, i + 1);
        assert(v@.skip(i as int).drop_first() =~= v@.skip(i + 1));
        assert(v@.skip(i + 1).skip(leading_ws(v@.skip(i + 1)) as int) =~= v@.skip(j as int));
        Some(j)
    } else {
        assert(trim_start(v@.skip(after as int)) == v@.skip(i as int));
        assert(v@.skip(i as int).len() == 0 || v@.skip(i as int)[0] != ':');
        None
    }
}

/// Extracts a numeric field's value from a partial NDJSON line by name (see
/// [`int_field`]); `None` while the field has not been emitted yet.
pub fn parse_int_field(line: &str, name: &str) -> (r: Option<usize>)
    ensures
        match int_field(line@, name@) {
            Some(n) => r == Some(n as usize),
            None => r is None,
        },
{
    let v = chars_of(line);
    let start = match field_value_start(&v, name) {
        Some(s) => s,
        None => return None,
    };
    let ghost rest = v@.skip(start as int);
    proof {
        lemma_leading_digits(rest);
    }
    let mut end = start;
    while end < v.len() && '0' <= v[end] && v[end] <= '9'
        invariant
            start <= end <= v@.len(),
            rest == v@.skip(start as int),
            end - start <= leading_digits(rest),
            leading_digits(rest) <= rest.len(),
            forall|k: int| 0 <= k < leading_digits(rest) ==> is_digit(#[trigger] rest[k]),
            leading_digits(rest) < rest.len() ==> !is_digit(rest[leading_digits(rest) as int]),
        decreases v@.len() - end,
    {
        proof {
            if end - start == leading_digits(rest) {
                assert(rest[end - start] == v@[end as int]);
            }
        }
        end = end + 1;
    }
    proof {
        if end < v@.len() && end - start < leading_digits(rest) {
            assert(rest[end - start] == v@[end as int]);
        }
    }
    assert(v@.subrange(start as int, end as int) =~= rest.take(leading_digits(rest) as int));
    match parse_digits_in(&v, start, end, usize::MAX as u64) {
        Some(x) => Some(x as usize),
        None => None,
    }
}

} // verus!

verus! {

/// The character a simple JSON escape `\<c>` stands for; unknown escapes
/// are dropped.
pub open spec fn simple_escape(c: char) -> Seq<char> {
    if c == 'n' {
        seq!['\n']
    } else if c == 't' {
        seq!['\t']
    } else if c == 'r' {
        seq!['\r']
    } else if c == 'b' {
        seq!['\u{8}']
    } else if c == 'f' {
        seq!['\u{c}']
    } else if c == '"' {
        seq!['"']
    } else if c == '\\' {
        seq!['\\']
    } else if c == '/' {
        seq!['/']
    } else {
        Seq::empty()
    }
}

/// `c` is a hexadecimal digit.
pub open spec fn is_hex(c: char) -> bool {
    ('0' <= c <= '9') || ('a' <= c <= 'f') || ('A' <= c <= 'F')
}

/// Value of a hexadecimal digit.
pub open spec fn hex_value(c: char) -> nat {
    if '0' <= c <= '9' {
        (c as int - 48) as nat
    } else if 'a' <= c <= 'f' {
        (c as int - 87) as nat
    } else {
        (c as int - 55) as nat
    }
}

/// Value of a string of hexadecimal digits.
pub open spec fn hex_digits_value(d: Seq<char>) -> nat
    decreases d.len(),
{
    if d.len() == 0 {
        0
    } else {
        hex_digits_value(d.drop_last()) * 16 + hex_value(d.last())
    }
}

/// The code point a `\u` escape names by its four characters: `None`
/// unless all four are hexadecimal digits, as JSON requires.
pub open spec fn hex4_value(h: Seq<char>) -> Option<nat> {
    if h.len() > 0 && forall|k: int| 0 <= k < h.len() ==> is_hex(#[trigger] h[k]) {
        Some(hex_digits_value(h))
    } else {
        None
    }
}

/// `code` is a Unicode scalar value (what `char::from_u32` accepts).
pub open spec fn is_scalar_value(code: nat) -> bool {
    code < 0xD800 || (0xE000 <= code && code <= 0x10FFFF)
}

/// What a `\uXXXX` escape contributes: the character, when the digits
/// parse and name a scalar value; nothing otherwise.
pub open spec fn unicode_escape(h: Seq<char>) -> Seq<char> {
    match hex4_value(h) {
        Some(code) => if is_scalar_value(code) {
            seq![code as char]
        } else {
            Seq::empty()
        },
        None => Seq::empty(),
    }
}

/// The text of a JSON string body read best-effort from a streaming line:
/// up to the closing quote or the end of the buffer, with escapes decoded;
/// a backslash at the very end, or a `\u` escape cut short, ends the text.
pub open spec fn json_text(s: Seq<char>) -> Seq<char>
    decreases s.len(),
{
    if s.len() == 0 || s[0] == '"' {
        Seq::empty()
    } else if s[0] == '\\' {
        if s.len() < 2 {
            Seq::empty()
        } else if s[1] == 'u' {
            if s.len() < 6 {
                Seq::empty()
            } else {
                unicode_escape(s.subrange(2, 6)) + json_text(s.skip(6))
            }
        } else {
            simple_escape(s[1]) + json_text(s.skip(2))
        }
    } else {
        seq![s[0]] + json_text(s.drop_first())
    }
}

/// The span a still-streaming NDJSON line shows so far: both indices must
/// have been emitted with `start <= end < n`, and the `t` field must have
/// reached its opening quote; the text is [`json_text`] of what follows.
pub open spec fn partial_span(line: Seq<char>, n: nat) -> Option<(nat, nat, Seq<char>)> {
    match int_field(line, seq!['i']) {
        None => None,
        Some(start) => match int_field(line, seq!['j']) {
            None => None,
            Some(end) => if start > end || end >= n {
                None
            } else {
                match after_field(line, seq!['t']) {
                    None => None,
                    Some(rest) => if rest.len() > 0 && rest[0] == '"' {
                        Some((start, end, json_text(rest.drop_first())))
                    } else {
                        None
                    },
                }
            },
        },
    }
}

/// `char::from_u32(code)`: the character with that scalar value, if `code`
/// is one.
#[verifier::external_body]
fn char_from_u32(code: u32) -> (r: Option<char>)
    ensures
        r is Some <==> is_scalar_value(code as nat),
        r matches Some(c) ==> c == (code as nat) as char,
{
    char::from_u32(code)
}

fn hex_digit_value(c: char) -> (r: Option<u32>)
    ensures
        match r {
            Some(x) => is_hex(c) && x as nat == hex_value(c),
            None => !is_hex(c),
        },
{
    if '0' <= c && c <= '9' {
        Some((c as u32) - 48)
    } else if 'a' <= c && c <= 'f' {
        Some((c as u32) - 87)
    } else if 'A' <= c && c <= 'F' {
        Some((c as u32) - 55)
    } else {
        None
    }
}

/// Decodes the four characters of a `\u` escape (see [`unicode_escape`]).
fn decode_unicode_escape(v: &Vec<char>, at: usize) -> (r: Option<char>)
    requires
        at + 4 <= v.len(),
    ensures
        match r {
            Some(c) => unicode_escape(v@.subrange(at as int, at + 4)) == seq![c],
            None => unicode_escape(v@.subrange(at as int, at + 4)) == Seq::<char>::empty(),
        },
{
    let ghost h = v@.subrange(at as int, at + 4);
    let mut i = at;
    let mut acc: u32 = 0;
    while i < at + 4
        invariant
            at <= i <= at + 4 <= v.len(),
            h == v@.subrange(at as int, at + 4),
            forall|k: int| 0 <= k < i - at ==> is_hex(#[trigger] h[k]),
            acc as nat == hex_digits_value(h.take(i - at)),
            acc < pow16(i - at),
        decreases at + 4 - i,
    {
        let x = match hex_digit_value(v[i]) {
            Some(x) => x,
            None => {
                assert(h[i - at] == v@[i as int]);
                assert(!is_hex(h[i - at]));
                assert(hex4_value(h) is None);
                return None;
            },
        };
        assert(h.take(i - at + 1).drop_last() =~= h.take(i - at));
        assert(pow16(i - at + 1) == pow16(i - at) * 16);
        assert(acc * 16 + x < pow16(i - at + 1)) by (nonlinear_arith)
            requires
                acc < pow16(i - at),
                x < 16,
                pow16(i - at + 1) == pow16(i - at) * 16,
        ;
        assert(pow16(i - at + 1) <= 65536) by {
            lemma_pow16_bound(i - at + 1);
        }
        acc = acc * 16 + x;
        i = i + 1;
    }
    assert(h.take(i - at) =~= h);
    assert(hex4_value(h) == Some(acc as nat));
    let r = char_from_u32(acc);
    match r {
        Some(c) => Some(c),
        None => None,
    }
}

/// `16^k`.
pub open spec fn pow16(k: int) -> nat
    decreases k,
{
    if k <= 0 {
        1
    } else {
        16 * pow16(k - 1)
    }
}

proof fn lemma_pow16_bound(k: int)
    requires
        0 <= k <= 4,
    ensures
        pow16(k) <= 65536,
{
    reveal_with_fuel(pow16, 5);
}

/// Best-effort extraction of the span of a still-streaming NDJSON line
/// (see [`partial_span`]); `None` until enough of the line has arrived.
pub fn parse_partial_ndjson_line(line: &str, n: usize) -> (r: Option<TranslationSpan>)
    ensures
        match partial_span(line@, n as nat) {
            None => r is None,
            Some((start, end, text)) => r matches Some(s) && s.start as nat == start && s.end as nat
                == end && s.text@ == text,
        },
{
    let start = match parse_int_field(line, "i") {
        Some(s) => s,
        None => {
            proof {
                reveal_strlit("i");
                assert("i"@ =~= seq!['i']);
            }
            return None;
        },
    };
    proof {
        reveal_strlit("i");
        assert("i"@ =~= seq!['i']);
    }
    let end = match parse_int_field(line, "j") {
        Some(e) => e,
        None => {
            proof {
                reveal_strlit("j");
                assert("j"@ =~= seq!['j']);
            }
            return None;
        },
    };
    proof {
        reveal_strlit("j");
        assert("j"@ =~= seq!['j']);
    }
    if start > end || end >= n {
        return None;
    }
    let v = chars_of(line);
    proof {
        reveal_strlit("t");
        assert("t"@ =~= seq!['t']);
    }
    let q = match field_value_start(&v, "t") {
        Some(q) => q,
        None => return None,
    };
    if q >= v.len() || v[q] != '"' {
        return None;
    }
    let first = q + 1;
    let ghost body = v@.skip(first as int);
    assert(v@.skip(q as int).drop_first() =~= body);
    let mut text = String::new();
    let mut i = first;
    assert(v@.skip(i as int) =~= body);
    assert(partial_span(line@, n as nat) == Some((start as nat, end as nat, json_text(body))));
    loop
        invariant
            first <= i <= v@.len(),
            v@.len() == v.len(),
            body == v@.skip(first as int),
            text@ + json_text(v@.skip(i as int)) == json_text(body),
            partial_span(line@, n as nat) == Some((start as nat, end as nat, json_text(body))),
        ensures
            text@ == json_text(body),
        decreases v@.len() - i,
    {
        if i >= v.len() {
            assert(v@.skip(i as int) =~= Seq::<char>::empty());
            break;
        }
        let ghost rest = v@.skip(i as int);
        let c = v[i];
        assert(rest[0] == c);
        if c == '"' {
            assert(text@ + json_text(rest) =~= text@);
            break;
        } else if c == '\\' {
            if i + 1 >= v.len() {
                assert(text@ + json_text(rest) =~= text@);
                break;
            }
            let e = v[i + 1];
            assert(rest[1] == e);
            if e == 'u' {
                if v.len() - i < 6 {
                    assert(text@ + json_text(rest) =~= text@);
                    return Some(TranslationSpan { start, end, text });
                }
                assert(rest.subrange(2, 6) =~= v@.subrange(i + 2, i + 6));
                assert(rest.skip(6) =~= v@.skip(i + 6));
                match decode_unicode_escape(&v, i + 2) {
                    Some(ch) => push_char(&mut text, ch),
                    None => {},
                }
                i = i + 6;
            } else {
                assert(rest.skip(2) =~= v@.skip(i + 2));
                if e == 'n' {
                    push_char(&mut text, '\n');
                } else if e == 't' {
                    push_char(&mut text, '\t');
                } else if e == 'r' {
                    push_char(&mut text, '\r');
                } else if e == 'b' {
                    push_char(&mut text, '\u{8}');
                } else if e == 'f' {
                    push_char(&mut text, '\u{c}');
                } else if e == '"' {
                    push_char(&mut text, '"');
                } else if e == '\\' {
                    push_char(&mut text, '\\');
                } else if e == '/' {
                    push_char(&mut text, '/');
                }
                i = i + 2;
            }
        } else {
            push_char(&mut text, c);
            assert(rest.drop_first() =~= v@.skip(i + 1));
            i = i + 1;
        }
    }
    Some(TranslationSpan { start, end, text })
}

} // verus!

verus! {

/// Index just past the last newline of `s`, or 0 when there is none.
pub open spec fn after_last_newline(s: Seq<char>) -> int
    decreases s.len(),
{
    if s.len() == 0 {
        0
    } else if s.last() == '\n' {
        s.len() as int
    } else {
        after_last_newline(s.drop_last())
    }
}

/// The completed lines of a streamed NDJSON response: the text up to its
/// last newline split into lines, trimmed, blank lines left out.
pub open spec fn ndjson_lines(content: Seq<char>) -> Seq<Seq<char>> {
    crate::text::nonempty_trimmed(
        crate::text::split(content.take(after_last_newline(content)), '\n'),
    )
}

/// The still-unterminated tail of a streamed NDJSON response.
pub open spec fn ndjson_partial(content: Seq<char>) -> Seq<char> {
    content.skip(after_last_newline(content))
}

/// The completed lines of `content` (see [`ndjson_lines`]), which are
/// handed to a JSON parser line by line.
pub fn ndjson_completed_lines(content: &str) -> (lines: Vec<String>)
    ensures
        crate::text::views(lines@) == ndjson_lines(content@),
{
    let v = chars_of(content);
    let cut = last_newline_end(&v);
    let completed = string_of(&v, 0, cut);
    assert(completed@ =~= content@.take(after_last_newline(content@)));
    let pieces = crate::text::split_char(completed.as_str(), '\n');
    crate::text::nonempty_trimmed_of(&pieces)
}

/// Index just past the last newline of `v` before `to`, or 0 when there is
/// none (see [`after_last_newline`]).
fn newline_end_before(v: &Vec<char>, to: usize) -> (i: usize)
    requires
        to <= v@.len(),
    ensures
        i as int == after_last_newline(v@.take(to as int)),
        i <= to,
{
    let mut i = to;
    assert(v@.take(to as int).take(i as int) =~= v@.take(to as int));
    while i > 0 && v[i - 1] != '\n'
        invariant
            i <= to <= v@.len(),
            after_last_newline(v@.take(to as int)) == after_last_newline(v@.take(i as int)),
        decreases i,
    {
        assert(v@.take(i as int).drop_last() =~= v@.take(i - 1));
        i = i - 1;
    }
    proof {
        if i > 0 {
            assert(v@.take(i as int).last() == v@[i - 1]);
        } else {
            assert(v@.take(0) =~= Seq::<char>::empty());
        }
    }
    i
}

/// Index just past the last newline of `v` (see [`after_last_newline`]).
fn last_newline_end(v: &Vec<char>) -> (i: usize)
    ensures
        i as int == after_last_newline(v@),
        i <= v@.len(),
{
    assert(v@.take(v@.len() as int) =~= v@);
    newline_end_before(v, v.len())
}

/// The line that a newline at `p` completes: from just after the newline
/// before it, without a carriage return before `p`.
pub open spec fn line_ending_at(s: Seq<char>, p: int) -> Seq<char> {
    strip_cr(s.subrange(after_last_newline(s.take(p)), p))
}

/// The lines completed by the newlines of `s` at or after `from`.
pub open spec fn completed_lines_from(s: Seq<char>, from: int) -> Seq<Seq<char>>
    decreases s.len() - from,
{
    match find_char_from(s, from, '\n') {
        Some(p) => {
            proof {
                lemma_find_char_from(s, from, '\n');
            }
            seq![line_ending_at(s, p)] + completed_lines_from(s, p + 1)
        },
        None => Seq::empty(),
    }
}

/// The lines a streamed response completed when it grew past its first
/// `previous_len` characters: one for every newline from there on.
pub fn newly_completed_lines(content: &str, previous_len: usize) -> (lines: Vec<String>)
    ensures
        views(lines@) == completed_lines_from(
            content@,
            if previous_len <= content@.len() {
                previous_len as int
            } else {
                content@.len() as int
            },
        ),
{
    let v = chars_of(content);
    let mut from = if previous_len <= v.len() {
        previous_len
    } else {
        v.len()
    };
    let ghost start = from as int;
    let n = v.len();
    let mut lines: Vec<String> = Vec::new();
    loop
        invariant_except_break
            n == v@.len(),
            from <= v@.len(),
            v@ == content@,
            completed_lines_from(v@, start) == views(lines@) + completed_lines_from(v@, from as int),
        ensures
            views(lines@) == completed_lines_from(v@, start),
        decreases v@.len() - from,
    {
        proof {
            lemma_find_char_from(v@, from as int, '\n');
        }
        match find_char_after(&v, from, '\n') {
            Some(p) => {
                let start_of_line = newline_end_before(&v, p);
                assert(v@.take(p as int).len() == p);
                let end = if p > start_of_line && v[p - 1] == '\r' {
                    p - 1
                } else {
                    p
                };
                let line = string_of(&v, start_of_line, end);
                proof {
                    let raw = v@.subrange(start_of_line as int, p as int);
                    if p > start_of_line && v@[p - 1] == '\r' {
                        assert(raw.last() == v@[p - 1]);
                        assert(line@ =~= raw.drop_last());
                    }
                    assert(line@ =~= line_ending_at(v@, p as int));
                }
                let ghost before = views(lines@);
                lines.push(line);
                assert(views(lines@) =~= before.push(line@));
                from = p + 1;
            },
            None => {
                assert(views(lines@) =~= views(lines@) + completed_lines_from(v@, from as int));
                break;
            },
        }
    }
    lines
}

/// The last line of a finished response when it ends without a newline,
/// without a trailing carriage return; `None` when the response ends with a
/// newline or that line is empty.
pub open spec fn final_unterminated(s: Seq<char>) -> Option<Seq<char>> {
    if s.len() > 0 && s.last() == '\n' {
        None
    } else {
        let line = strip_cr(s.skip(after_last_newline(s)));
        if line.len() > 0 {
            Some(line)
        } else {
            None
        }
    }
}

/// The unterminated last line of a finished response (see
/// [`final_unterminated`]).
pub fn final_unterminated_line(content: &str) -> (line: Option<String>)
    ensures
        match final_unterminated(content@) {
            Some(l) => line matches Some(s) && s@ == l,
            None => line is None,
        },
{
    let v = chars_of(content);
    if v.len() > 0 && v[v.len() - 1] == '\n' {
        return None;
    }
    let start = last_newline_end(&v);
    let end = if v.len() > start && v[v.len() - 1] == '\r' {
        v.len() - 1
    } else {
        v.len()
    };
    let line = string_of(&v, start, end);
    proof {
        let raw = v@.skip(start as int);
        if v@.len() > start && v@[v@.len() - 1] == '\r' {
            assert(raw.last() == v@[v@.len() - 1]);
            assert(line@ =~= raw.drop_last());
        } else {
            assert(line@ =~= raw);
        }
    }
    if line.as_str().is_empty() {
        None
    } else {
        Some(line)
    }
}

/// A parsed line counts when `start <= end < n`.
pub open spec fn span_in_range(s: TranslationSpan, n: nat) -> bool {
    s.start <= s.end && (s.end as nat) < n
}

/// The spans among the parsed completed lines whose indices are in range.
pub open spec fn valid_spans(parsed: Seq<Option<TranslationSpan>>, n: nat) -> Seq<TranslationSpan>
    decreases parsed.len(),
{
    if parsed.len() == 0 {
        Seq::empty()
    } else {
        let rest = valid_spans(parsed.drop_last(), n);
        match parsed.last() {
            Some(s) => if span_in_range(s, n) {
                rest.push(s)
            } else {
                rest
            },
            None => rest,
        }
    }
}

/// The spans of a (possibly partial) NDJSON response over `n` segments,
/// given what the JSON parser made of each completed line: the in-range
/// parsed spans in order, then the span of the unterminated tail if it is
/// not blank and shows one.
pub open spec fn segment_translations(
    content: Seq<char>,
    n: nat,
    parsed: Seq<Option<TranslationSpan>>,
) -> Seq<(nat, nat, Seq<char>)> {
    let done = valid_spans(parsed, n).map_values(
        |s: TranslationSpan| (s.start as nat, s.end as nat, s.text@),
    );
    let tail = ndjson_partial(content);
    if crate::text::trim(tail).len() > 0 && partial_span(tail, n) is Some {
        done.push(partial_span(tail, n)->0)
    } else {
        done
    }
}

/// The triple a span stands for.
pub open spec fn span_triple(s: TranslationSpan) -> (nat, nat, Seq<char>) {
    (s.start as nat, s.end as nat, s.text@)
}

/// Parses a (possibly partial) NDJSON response into translation spans
/// (see [`segment_translations`]). `parsed[k]` is the JSON parser's
/// reading of the `k`-th line of [`ndjson_completed_lines`].
pub fn parse_segment_translations(
    content: &str,
    n: usize,
    parsed: &Vec<Option<TranslationSpan>>,
) -> (out: Vec<TranslationSpan>)
    ensures
        out@.map_values(|s: TranslationSpan| span_triple(s)) == segment_translations(
            content@,
            n as nat,
            parsed@,
        ),
{
    let mut out: Vec<TranslationSpan> = Vec::new();
    let mut k: usize = 0;
    while k < parsed.len()
        invariant
            k <= parsed@.len(),
            out@ == valid_spans(parsed@.take(k as int), n as nat),
        decreases parsed@.len() - k,
    {
        assert(parsed@.take(k + 1).drop_last() =~= parsed@.take(k as int));
        match &parsed[k] {
            Some(s) => {
                if s.start <= s.end && s.end < n {
                    out.push(s.clone());
                }
            },
            None => {},
        }
        k = k + 1;
    }
    assert(parsed@.take(k as int) =~= parsed@);
    let v = chars_of(content);
    let cut = last_newline_end(&v);
    let tail = string_of(&v, cut, v.len());
    assert(tail@ =~= ndjson_partial(content@));
    let trimmed = crate::text::trim_string(tail.as_str());
    let ghost done = out@;
    if !trimmed.as_str().is_empty() {
        match parse_partial_ndjson_line(tail.as_str(), n) {
            Some(span) => {
                out.push(span);
                assert(out@.map_values(|s: TranslationSpan| span_triple(s)) =~= done.map_values(
                    |s: TranslationSpan| span_triple(s),
                ).push(span_triple(span)));
            },
            None => {},
        }
    }
    assert(out@.map_values(|s: TranslationSpan| span_triple(s)) =~= segment_translations(
        content@,
        n as nat,
        parsed@,
    ));
    out
}

proof fn lemma_valid_spans_in_range(parsed: Seq<Option<TranslationSpan>>, n: nat)
    ensures
        forall|k: int| 0 <= k < valid_spans(parsed, n).len() ==> span_in_range(
            #[trigger] valid_spans(parsed, n)[k],
            n,
        ),
    decreases parsed.len(),
{
    if parsed.len() > 0 {
        lemma_valid_spans_in_range(parsed.drop_last(), n);
        let rest = valid_spans(parsed.drop_last(), n);
        let all = valid_spans(parsed, n);
        assert forall|k: int| 0 <= k < all.len() implies span_in_range(#[trigger] all[k], n) by {
            if k < rest.len() {
                assert(all[k] == rest[k]);
            }
        }
    }
}

/// Every span read from a response covers segments `start..=end` with
/// `start <= end < n`, whatever the model wrote.
pub proof fn law_translations_in_range(content: Seq<char>, n: nat, parsed: Seq<Option<TranslationSpan>>)
    ensures
        forall|k: int|
            0 <= k < segment_translations(content, n, parsed).len() ==> {
                let t = #[trigger] segment_translations(content, n, parsed)[k];
                t.0 <= t.1 && t.1 < n
            },
{
    lemma_valid_spans_in_range(parsed, n);
    let done = valid_spans(parsed, n).map_values(|s: TranslationSpan| (s.start as nat, s.end as nat, s.text@));
    assert forall|k: int| 0 <= k < done.len() implies done[k].0 <= done[k].1 && done[k].1 < n by {
        assert(span_in_range(valid_spans(parsed, n)[k], n));
    }
}

proof fn lemma_valid_spans_as_filter(parsed: Seq<Option<TranslationSpan>>, n: nat)
    ensures
        valid_spans(parsed, n).len() == parsed.filter(
            |o: Option<TranslationSpan>| o matches Some(s) && s.start <= s.end && (s.end as nat) < n,
        ).len(),
        forall|k: int|
            0 <= k < valid_spans(parsed, n).len() ==> Some(#[trigger] valid_spans(parsed, n)[k]) == parsed.filter(
                |o: Option<TranslationSpan>| o matches Some(s) && s.start <= s.end && (s.end as nat) < n,
            )[k],
    decreases parsed.len(),
{
    reveal(Seq::filter);
    let f = parsed.filter(
        |o: Option<TranslationSpan>| o matches Some(s) && s.start <= s.end && (s.end as nat) < n,
    );
    if parsed.len() > 0 {
        lemma_valid_spans_as_filter(parsed.drop_last(), n);
        let fr = parsed.drop_last().filter(
            |o: Option<TranslationSpan>| o matches Some(s) && s.start <= s.end && (s.end as nat) < n,
        );
        let v = valid_spans(parsed, n);
        let vr = valid_spans(parsed.drop_last(), n);
        assert forall|k: int| 0 <= k < v.len() implies Some(#[trigger] v[k]) == f[k] by {
            if k < vr.len() {
                assert(v[k] == vr[k]);
                assert(f[k] == fr[k]);
            }
        }
    }
}

/// Every completed line the JSON parser read as a span with
/// `start <= end < n` is among the spans read from a response, in the order
/// of the lines, and nothing else comes before them; at most one span (from
/// the unfinished last line) follows.
pub proof fn law_every_completed_span_in_range_is_kept(
    content: Seq<char>,
    n: nat,
    parsed: Seq<Option<TranslationSpan>>,
)
    ensures
        ({
            let kept = parsed.filter(
                |o: Option<TranslationSpan>| o matches Some(s) && s.start <= s.end && (s.end as nat) < n,
            );
            let out = segment_translations(content, n, parsed);
            &&& kept.len() <= out.len() <= kept.len() + 1
            &&& forall|k: int|
                0 <= k < kept.len() ==> #[trigger] out[k] == (
                    kept[k]->0.start as nat,
                    kept[k]->0.end as nat,
                    kept[k]->0.text@,
                )
        }),
{
    lemma_valid_spans_as_filter(parsed, n);
}

} // verus!
