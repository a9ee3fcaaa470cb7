//! The user's text-preprocessing patterns: a compiled pattern kept until
//! the pattern changes, and what becomes of captured text before it is
//! glossed or spoken.

use fancy_regex::Regex;
use vstd::prelude::*;

use crate::text::{chars_of, push_char, trim, trim_string};

verus! {

#[verifier::external_type_specification]
#[verifier::external_body]
pub struct ExRegex(fancy_regex::Regex);

/// Whether `fancy_regex` accepts `pattern` with its default options.
pub uninterp spec fn fancy_regex_accepts(pattern: Seq<char>) -> bool;

/// A pattern compiled by `fancy_regex`, with the text it was compiled from.
pub struct CompiledRegex {
    regex: Regex,
    source: Ghost<Seq<char>>,
}

impl CompiledRegex {
    /// The pattern text this regex was compiled from.
    pub closed spec fn source(&self) -> Seq<char> {
        self.source@
    }
}

/// `fancy_regex::Regex::new(pattern)`: compiles the pattern with the
/// default options. Whether it succeeds is named by [`fancy_regex_accepts`],
/// a function of the pattern alone; on failure the error's text is
/// returned, and that text is left unsaid.
#[verifier::external_body]
fn compile_regex(pattern: &str) -> (r: Result<CompiledRegex, String>)
    ensures
        r is Ok <==> fancy_regex_accepts(pattern@),
        r matches Ok(c) ==> c.source() == pattern@,
{
    Regex::new(pattern).map(|regex| CompiledRegex { regex, source: Ghost(pattern@) }).map_err(
        |e| e.to_string(),
    )
}

/// What `fancy_regex::Regex::try_replacen(text, 0, rep)` gives for the
/// regex compiled from `pattern`: every non-overlapping match replaced by
/// `rep` (with its `$` group references expanded), or `None` when the
/// matcher stops with an error (such as its backtracking limit).
pub uninterp spec fn fancy_regex_replace_all(
    pattern: Seq<char>,
    text: Seq<char>,
    rep: Seq<char>,
) -> Option<Seq<char>>;

/// `Regex::try_replacen(text, 0, rep)`: replaces all matches. The result
/// is named by [`fancy_regex_replace_all`], a function of the pattern, the
/// text and the replacement alone; the error's text is left unsaid.
#[verifier::external_body]
fn regex_replace_all(re: &CompiledRegex, text: &str, rep: &str) -> (r: Result<String, String>)
    ensures
        match fancy_regex_replace_all(re.source(), text@, rep@) {
            Some(s) => r matches Ok(t) && t@ == s,
            None => r is Err,
        },
{
    match re.regex.try_replacen(text, 0, rep) {
        Ok(s) => Ok(s.into_owned()),
        Err(e) => Err(e.to_string()),
    }
}

/// What `fancy_regex::Regex::captures(text)` gives for the regex compiled
/// from `pattern`, taken down to its first group: `None` when the matcher
/// stops with an error, `Some(None)` when nothing matches, and
/// `Some(Some(g))` for the first match, `g` being the text of group 1 when
/// that group took part in it.
pub uninterp spec fn fancy_regex_group1(pattern: Seq<char>, text: Seq<char>) -> Option<
    Option<Option<Seq<char>>>,
>;

/// `Regex::captures(text)`, then `Captures::get(1)` of the first match.
/// The result is named by [`fancy_regex_group1`], a function of the pattern
/// and the text alone; the error's text is left unsaid.
#[verifier::external_body]
fn regex_group1(re: &CompiledRegex, text: &str) -> (r: Result<Option<Option<String>>, String>)
    ensures
        r is Err <==> fancy_regex_group1(re.source(), text@) is None,
        r matches Ok(None) ==> fancy_regex_group1(re.source(), text@) == Some(
            None::<Option<Seq<char>>>,
        ),
        r matches Ok(Some(None)) ==> fancy_regex_group1(re.source(), text@) == Some(
            Some(None::<Seq<char>>),
        ),
        r matches Ok(Some(Some(g))) ==> fancy_regex_group1(re.source(), text@) == Some(
            Some(Some(g@)),
        ),
{
    match re.regex.captures(text) {
        Ok(m) => Ok(m.map(|c| c.get(1).map(|g| g.as_str().to_string()))),
        Err(e) => Err(e.to_string()),
    }
}

/// A compiled pattern, kept until a different pattern is asked for.
pub struct CachedRegex {
    pattern: String,
    regex: Option<CompiledRegex>,
}

impl CachedRegex {
    #[verifier::type_invariant]
    spec fn kept_matches_pattern(self) -> bool {
        match self.regex {
            Some(c) => c.source() == self.pattern@ && fancy_regex_accepts(c.source()),
            None => self.pattern@ == Seq::<char>::empty(),
        }
    }
}

impl View for CachedRegex {
    /// The pattern whose compiled regex is kept, if any.
    type V = Option<Seq<char>>;

    closed spec fn view(&self) -> Option<Seq<char>> {
        match self.regex {
            Some(c) => Some(self.pattern@),
            None => None,
        }
    }
}

impl Default for CachedRegex {
    fn default() -> (c: Self)
        ensures
            c@ is None,
    {
        CachedRegex { pattern: String::new(), regex: None }
    }
}

impl CachedRegex {
    /// The regex for `pattern`: the kept one when it was compiled from the
    /// same pattern, else a fresh compile that replaces it. A pattern that
    /// does not compile leaves the cache as it was and gives the error text.
    pub fn get(&mut self, pattern: &str) -> (r: Result<&CompiledRegex, String>)
        ensures
            r is Ok <==> fancy_regex_accepts(pattern@),
            r matches Ok(c) ==> c.source() == pattern@,
            final(self)@ == (if fancy_regex_accepts(pattern@) {
                Some(pattern@)
            } else {
                old(self)@
            }),
            old(self)@ == Some(pattern@) ==> *final(self) == *old(self),
    {
        proof {
            use_type_invariant(&*self);
        }
        let same = self.regex.is_some() && self.pattern.eq(&String::from_str(pattern));
        if !same {
            match compile_regex(pattern) {
                Ok(c) => {
                    *self = CachedRegex { pattern: String::from_str(pattern), regex: Some(c) };
                },
                Err(e) => {
                    return Err(e);
                },
            }
        }
        proof {
            use_type_invariant(&*self);
        }
        match &self.regex {
            Some(c) => Ok(c),
            None => Err(String::new()),
        }
    }

    /// The pattern whose compiled regex is kept; empty when none is.
    pub fn pattern(&self) -> (r: &str)
        ensures
            r@ == match self@ {
                Some(p) => p,
                None => Seq::<char>::empty(),
            },
    {
        proof {
            use_type_invariant(self);
        }
        self.pattern.as_str()
    }
}

/// `s` without its `\n` and `\r` characters.
pub open spec fn without_line_breaks(s: Seq<char>) -> Seq<char>
    decreases s.len(),
{
    if s.len() == 0 {
        Seq::empty()
    } else if s.last() == '\n' || s.last() == '\r' {
        without_line_breaks(s.drop_last())
    } else {
        without_line_breaks(s.drop_last()).push(s.last())
    }
}

/// The text handed to the glosser after the user's replacement: line
/// breaks (from dialogue wrapping) removed and the ends trimmed; `None` when
/// nothing is left.
pub open spec fn gloss_input_of(replaced: Seq<char>) -> Option<Seq<char>> {
    let t = trim(without_line_breaks(replaced));
    if t.len() > 0 {
        Some(t)
    } else {
        None
    }
}

/// Prepares regex-processed text for the glosser (see [`gloss_input_of`]).
pub fn gloss_input(replaced: &str) -> (r: Option<String>)
    ensures
        match gloss_input_of(replaced@) {
            Some(t) => r matches Some(s) && s@ == t,
            None => r is None,
        },
{
    let v = chars_of(replaced);
    let mut kept = String::new();
    let mut k: usize = 0;
    while k < v.len()
        invariant
            k <= v@.len(),
            v@ == replaced@,
            kept@ == without_line_breaks(v@.take(k as int)),
        decreases v@.len() - k,
    {
        proof {
            assert(v@.take(k + 1).drop_last() =~= v@.take(k as int));
        }
        let c = v[k];
        if c != '\n' && c != '\r' {
            push_char(&mut kept, c);
        }
        k = k + 1;
    }
    assert(v@.take(k as int) =~= v@);
    let t = trim_string(kept.as_str());
    if t.as_str().is_empty() {
        None
    } else {
        Some(t)
    }
}

/// What is spoken for processed text, given how the speech pattern matched
/// it: nothing without a match, the first group when it took part, else the
/// whole text.
pub fn speech_text(processed: &str, captures: Option<Option<String>>) -> (r: Option<String>)
    ensures
        match captures {
            None => r is None,
            Some(Some(g)) => r == Some(g),
            Some(None) => r matches Some(s) && s@ == processed@,
        },
{
    match captures {
        None => None,
        Some(Some(g)) => Some(g),
        Some(None) => Some(String::from_str(processed)),
    }
}

/// The gloss request for raw input `text`: the user's pattern (compiled
/// through `cache`) has every match replaced by `rep`, then the result is
/// prepared as by [`gloss_input`]. A pattern that does not compile, or a
/// matcher that stops with an error, gives an error; `Ok(None)` means that
/// nothing is left to gloss.
pub fn gloss_request(cache: &mut CachedRegex, pattern: &str, rep: &str, text: &str) -> (r: Result<
    Option<String>,
    String,
>)
    ensures
        final(cache)@ == (if fancy_regex_accepts(pattern@) {
            Some(pattern@)
        } else {
            old(cache)@
        }),
        !fancy_regex_accepts(pattern@) ==> r is Err,
        fancy_regex_accepts(pattern@) ==> match fancy_regex_replace_all(pattern@, text@, rep@) {
            None => r is Err,
            Some(replaced) => match gloss_input_of(replaced) {
                Some(t) => r matches Ok(Some(s)) && s@ == t,
                None => r matches Ok(None),
            },
        },
{
    let re = match cache.get(pattern) {
        Ok(re) => re,
        Err(e) => {
            return Err(e);
        },
    };
    let replaced = match regex_replace_all(re, text, rep) {
        Ok(s) => s,
        Err(e) => {
            return Err(e);
        },
    };
    Ok(gloss_input(replaced.as_str()))
}

/// What is spoken for `processed` text under the speech pattern: see
/// [`speech_text`] for a given match.
pub open spec fn speech_of(processed: Seq<char>, found: Option<Option<Seq<char>>>) -> Option<
    Seq<char>,
> {
    match found {
        None => None,
        Some(Some(g)) => Some(g),
        Some(None) => Some(processed),
    }
}

/// The text to speak for regex-processed text: the speech pattern
/// (compiled through `cache`) is matched against `processed`. A pattern
/// that does not compile speaks nothing; a matcher that stops with an
/// error gives an error.
pub fn speech_request(cache: &mut CachedRegex, pattern: &str, processed: &str) -> (r: Result<
    Option<String>,
    String,
>)
    ensures
        final(cache)@ == (if fancy_regex_accepts(pattern@) {
            Some(pattern@)
        } else {
            old(cache)@
        }),
        !fancy_regex_accepts(pattern@) ==> r matches Ok(None),
        fancy_regex_accepts(pattern@) ==> match fancy_regex_group1(pattern@, processed@) {
            None => r is Err,
            Some(found) => match speech_of(processed@, found) {
                Some(t) => r matches Ok(Some(s)) && s@ == t,
                None => r matches Ok(None),
            },
        },
{
    let re = match cache.get(pattern) {
        Ok(re) => re,
        Err(_) => {
            return Ok(None);
        },
    };
    match regex_group1(re, processed) {
        Ok(found) => Ok(speech_text(processed, found)),
        Err(e) => Err(e),
    }
}

} // verus!
