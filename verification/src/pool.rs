//! Line protocol of the ichiran-cli worker processes: each request is one
//! base64 line, each reply one `ok <base64>` or `err <base64>` line.

use base64::Engine;
use vstd::prelude::*;
use vstd::utf8::{decode_utf8, encode_utf8, valid_utf8};

use crate::text::{chars_of, push_str, string_of};

verus! {

/// The character of the standard base64 alphabet for the 6-bit value `v`.
pub open spec fn base64_digit(v: int) -> char {
    if v < 26 {
        (65 + v) as char
    } else if v < 52 {
        (97 + v - 26) as char
    } else if v < 62 {
        (48 + v - 52) as char
    } else if v == 62 {
        '+'
    } else {
        '/'
    }
}

/// The standard base64 text of `bytes`, padded with `=` (RFC 4648,
/// section 4): every three bytes become four digits, and a last group of
/// one or two bytes becomes two or three digits and `=` up to four.
pub open spec fn base64_encode(bytes: Seq<u8>) -> Seq<char>
    decreases bytes.len(),
{
    if bytes.len() == 0 {
        Seq::empty()
    } else if bytes.len() == 1 {
        let b0 = bytes[0] as int;
        seq![base64_digit(b0 / 4), base64_digit((b0 % 4) * 16), '=', '=']
    } else if bytes.len() == 2 {
        let b0 = bytes[0] as int;
        let b1 = bytes[1] as int;
        seq![base64_digit(b0 / 4), base64_digit((b0 % 4) * 16 + b1 / 16), base64_digit((b1 % 16) * 4), '=']
    } else {
        let b0 = bytes[0] as int;
        let b1 = bytes[1] as int;
        let b2 = bytes[2] as int;
        seq![
            base64_digit(b0 / 4),
            base64_digit((b0 % 4) * 16 + b1 / 16),
            base64_digit((b1 % 16) * 4 + b2 / 64),
            base64_digit(b2 % 64),
        ] + base64_encode(bytes.skip(3))
    }
}

/// The bytes whose padded standard base64 text is `text`, if any (there is
/// at most one, see [`lemma_base64_encode_injective`]).
pub open spec fn base64_decode(text: Seq<char>) -> Option<Seq<u8>> {
    if exists|b: Seq<u8>| base64_encode(b) == text {
        Some(choose|b: Seq<u8>| base64_encode(b) == text)
    } else {
        None
    }
}

proof fn lemma_digit_injective(v: int, w: int)
    requires
        0 <= v < 64,
        0 <= w < 64,
        base64_digit(v) == base64_digit(w),
    ensures
        v == w,
{
}

proof fn lemma_encode_shape(b: Seq<u8>)
    ensures
        b.len() == 0 ==> base64_encode(b).len() == 0,
        1 <= b.len() <= 3 ==> base64_encode(b).len() == 4,
        b.len() > 3 ==> base64_encode(b).len() > 4,
        b.len() > 0 ==> (base64_encode(b)[2] == '=' <==> b.len() == 1),
        b.len() > 0 ==> (base64_encode(b)[3] == '=' <==> b.len() <= 2),
    decreases b.len(),
{
    if b.len() >= 3 {
        lemma_encode_shape(b.skip(3));
    }
}

proof fn lemma_split_digits(a: int, b: int, c: int, d: int, k: int)
    by (nonlinear_arith)
    requires
        k > 0,
        0 <= b < k,
        0 <= d < k,
        a * k + b == c * k + d,
    ensures
        a == c,
        b == d,
{
}

/// Padded standard base64 text names its bytes: two byte sequences with the
/// same text are the same.
pub proof fn lemma_base64_encode_injective(b1: Seq<u8>, b2: Seq<u8>)
    requires
        base64_encode(b1) == base64_encode(b2),
    ensures
        b1 == b2,
    decreases b1.len(),
{
    lemma_encode_shape(b1);
    lemma_encode_shape(b2);
    let e = base64_encode(b1);
    let f = base64_encode(b2);
    if b1.len() == 0 {
        assert(b1 =~= b2);
    } else {
        let x0 = b1[0] as int;
        let y0 = b2[0] as int;
        if b1.len() == 1 {
            assert(b2.len() == 1);
            lemma_digit_injective(x0 / 4, y0 / 4);
            lemma_digit_injective((x0 % 4) * 16, (y0 % 4) * 16);
            assert(b1 =~= b2);
        } else {
            let x1 = b1[1] as int;
            let y1 = b2[1] as int;
            if b1.len() == 2 {
                assert(b2.len() == 2);
                lemma_digit_injective(x0 / 4, y0 / 4);
                lemma_digit_injective((x0 % 4) * 16 + x1 / 16, (y0 % 4) * 16 + y1 / 16);
                lemma_split_digits(x0 % 4, x1 / 16, y0 % 4, y1 / 16, 16);
                lemma_digit_injective((x1 % 16) * 4, (y1 % 16) * 4);
                assert(b1 =~= b2);
            } else {
                assert(b2.len() >= 3);
                let x2 = b1[2] as int;
                let y2 = b2[2] as int;
                let h1 = seq![
                    base64_digit(x0 / 4),
                    base64_digit((x0 % 4) * 16 + x1 / 16),
                    base64_digit((x1 % 16) * 4 + x2 / 64),
                    base64_digit(x2 % 64),
                ];
                let h2 = seq![
                    base64_digit(y0 / 4),
                    base64_digit((y0 % 4) * 16 + y1 / 16),
                    base64_digit((y1 % 16) * 4 + y2 / 64),
                    base64_digit(y2 % 64),
                ];
                assert(e == h1 + base64_encode(b1.skip(3)));
                assert(f == h2 + base64_encode(b2.skip(3)));
                assert(e[0] == h1[0] && f[0] == h2[0]);
                assert(e[1] == h1[1] && f[1] == h2[1]);
                assert(e[2] == h1[2] && f[2] == h2[2]);
                assert(e[3] == h1[3] && f[3] == h2[3]);
                lemma_digit_injective(x0 / 4, y0 / 4);
                lemma_digit_injective((x0 % 4) * 16 + x1 / 16, (y0 % 4) * 16 + y1 / 16);
                lemma_split_digits(x0 % 4, x1 / 16, y0 % 4, y1 / 16, 16);
                lemma_digit_injective((x1 % 16) * 4 + x2 / 64, (y1 % 16) * 4 + y2 / 64);
                lemma_split_digits(x1 % 16, x2 / 64, y1 % 16, y2 / 64, 4);
                lemma_digit_injective(x2 % 64, y2 % 64);
                assert(e.skip(4) =~= base64_encode(b1.skip(3)));
                assert(f.skip(4) =~= base64_encode(b2.skip(3)));
                lemma_base64_encode_injective(b1.skip(3), b2.skip(3));
                assert(b1 =~= b1.take(3) + b1.skip(3));
                assert(b2 =~= b2.take(3) + b2.skip(3));
                assert(b1.take(3) =~= b2.take(3));
            }
        }
    }
}

/// `base64::engine::general_purpose::STANDARD.encode(bytes)`: the padded
/// standard base64 text of `bytes` ([`base64_encode`]). The crate panics
/// when the encoded length overflows `usize`, which the bound on the input
/// rules out.
#[verifier::external_body]
fn b64_encode(bytes: &[u8]) -> (s: String)
    requires
        bytes@.len() <= usize::MAX / 2,
    ensures
        s@ == base64_encode(bytes@),
{
    base64::engine::general_purpose::STANDARD.encode(bytes)
}

/// `base64::engine::general_purpose::STANDARD.decode(text)`: this engine
/// demands canonical padding and zero trailing bits, so it accepts exactly
/// the padded standard base64 texts ([`base64_encode`]) and gives back the
/// bytes they encode; on any other text it fails, and the error's text is
/// left unsaid.
#[verifier::external_body]
fn b64_decode(text: &str) -> (r: Result<Vec<u8>, String>)
    ensures
        match r {
            Ok(v) => base64_encode(v@) == text@,
            Err(_) => forall|b: Seq<u8>| base64_encode(b) != text@,
        },
{
    base64::engine::general_purpose::STANDARD.decode(text).map_err(|e| e.to_string())
}

/// `String::from_utf8(bytes)`: the text the bytes encode when they are
/// valid UTF-8; otherwise the error's text, which is left unsaid.
#[verifier::external_body]
fn string_from_utf8(bytes: Vec<u8>) -> (r: Result<String, String>)
    ensures
        match r {
            Ok(s) => valid_utf8(bytes@) && s@ == decode_utf8(bytes@),
            Err(_) => !valid_utf8(bytes@),
        },
{
    String::from_utf8(bytes).map_err(|e| e.to_string())
}

/// The request line for a Lisp expression: the base64 of its UTF-8 bytes
/// followed by a newline.
pub open spec fn request_line(sexp: &str) -> Seq<char> {
    base64_encode(encode_utf8(sexp@)).push('\n')
}

/// Frames `sexp` as one request line (see [`request_line`]).
pub fn request_frame(sexp: &str) -> (line: String)
    requires
        encode_utf8(sexp@).len() <= usize::MAX / 2,
    ensures
        line@ == request_line(sexp),
{
    let mut line = b64_encode(sexp.as_bytes());
    crate::text::push_char(&mut line, '\n');
    line
}

/// Errors of the worker protocol.
#[derive(Debug)]
pub enum ServerError {
    /// A reply line without a space between tag and payload.
    MalformedFrame(String),
    /// A payload that is not valid base64; holds the decoder's message.
    InvalidBase64(String),
    /// A payload whose bytes are not valid UTF-8; holds the message.
    InvalidUtf8(String),
    /// A reply whose tag is neither `ok` nor `err`.
    UnknownTag(String),
    /// The Lisp side reported an error; holds its printed condition.
    Lisp(String),
    /// The worker went away.
    Gone,
}

impl ServerError {
    /// The message shown for the error.
    pub fn message(&self) -> (m: String)
        ensures
            m@ == server_error_message(*self),
    {
        let mut m = String::new();
        match self {
            ServerError::MalformedFrame(line) => {
                push_str(&mut m, "malformed frame: ");
                push_str(&mut m, line.as_str());
            },
            ServerError::InvalidBase64(e) => {
                push_str(&mut m, "invalid base64: ");
                push_str(&mut m, e.as_str());
            },
            ServerError::InvalidUtf8(e) => {
                push_str(&mut m, "invalid utf-8: ");
                push_str(&mut m, e.as_str());
            },
            ServerError::UnknownTag(tag) => {
                push_str(&mut m, "unknown tag: ");
                push_str(&mut m, tag.as_str());
            },
            ServerError::Lisp(msg) => {
                push_str(&mut m, msg.as_str());
            },
            ServerError::Gone => {
                push_str(&mut m, "ichiran-cli server has gone away");
            },
        }
        m
    }
}

/// The message of each protocol error.
pub open spec fn server_error_message(e: ServerError) -> Seq<char> {
    match e {
        ServerError::MalformedFrame(line) => "malformed frame: "@ + line@,
        ServerError::InvalidBase64(m) => "invalid base64: "@ + m@,
        ServerError::InvalidUtf8(m) => "invalid utf-8: "@ + m@,
        ServerError::UnknownTag(tag) => "unknown tag: "@ + tag@,
        ServerError::Lisp(m) => Seq::empty() + m@,
        ServerError::Gone => "ichiran-cli server has gone away"@,
    }
}

/// Index of the first `c` in `s`, if any.
pub open spec fn first_index_of(s: Seq<char>, c: char) -> Option<int> {
    if exists|k: int| 0 <= k < s.len() && s[k] == c {
        Some(choose|k: int| 0 <= k < s.len() && s[k] == c && forall|j: int| 0 <= j < k ==> s[j] != c)
    } else {
        None
    }
}

/// Finds the first `c` in `v[from..]`.
pub fn find_char(v: &Vec<char>, from: usize, c: char) -> (r: Option<usize>)
    requires
        from <= v@.len(),
    ensures
        match r {
            Some(i) => from <= i < v@.len() && v@[i as int] == c && forall|j: int|
                from <= j < i ==> v@[j] != c,
            None => forall|j: int| from <= j < v@.len() ==> v@[j] != c,
        },
{
    let mut i = from;
    while i < v.len()
        invariant
            from <= i <= v@.len(),
            forall|j: int| from <= j < i ==> v@[j] != c,
        decreases v@.len() - i,
    {
        if v[i] == c {
            return Some(i);
        }
        i = i + 1;
    }
    None
}

pub proof fn lemma_first_index_of(s: Seq<char>, c: char, i: int)
    requires
        0 <= i < s.len(),
        s[i] == c,
        forall|j: int| 0 <= j < i ==> s[j] != c,
    ensures
        first_index_of(s, c) == Some(i),
{
    let k = choose|k: int| 0 <= k < s.len() && s[k] == c && forall|j: int| 0 <= j < k ==> s[j] != c;
    assert(0 <= k < s.len() && s[k] == c && forall|j: int| 0 <= j < k ==> s[j] != c);
    if k < i {
        assert(s[k] != c);
    }
    if i < k {
        assert(s[i] != c);
    }
}

/// Parses one reply line (already stripped of its line ending).
pub fn parse_response(line: &str) -> (r: Result<String, ServerError>)
    ensures
        match first_index_of(line@, ' ') {
            None => r matches Err(ServerError::MalformedFrame(l)) && l@ == line@,
            Some(i) => {
                let tag = line@.take(i);
                let payload = line@.skip(i + 1);
                match base64_decode(payload) {
                    None => r matches Err(ServerError::InvalidBase64(_)),
                    Some(bytes) => if !valid_utf8(bytes) {
                        r matches Err(ServerError::InvalidUtf8(_))
                    } else if tag == "ok"@ {
                        r matches Ok(s) && s@ == decode_utf8(bytes)
                    } else if tag == "err"@ {
                        r matches Err(ServerError::Lisp(s)) && s@ == decode_utf8(bytes)
                    } else {
                        r matches Err(ServerError::UnknownTag(t)) && t@ == tag
                    },
                }
            },
        },
{
    let v = chars_of(line);
    let found = find_char(&v, 0, ' ');
    if found.is_none() {
        proof {
            if first_index_of(line@, ' ') is Some {
                let k = choose|k: int| 0 <= k < line@.len() && line@[k] == ' ';
                assert(v@[k] == ' ');
            }
        }
        return Err(ServerError::MalformedFrame(string_of(&v, 0, v.len())));
    }
    let space = found.unwrap();
    let n = v.len();
    assert(space < n);
    proof {
        lemma_first_index_of(line@, ' ', space as int);
    }
    let tag = string_of(&v, 0, space);
    let payload = string_of(&v, space + 1, v.len());
    assert(payload@ =~= line@.skip(space + 1));
    assert(tag@ =~= line@.take(space as int));
    let bytes = match b64_decode(payload.as_str()) {
        Ok(b) => b,
        Err(e) => return Err(ServerError::InvalidBase64(e)),
    };
    proof {
        let c = choose|b: Seq<u8>| base64_encode(b) == payload@;
        lemma_base64_encode_injective(c, bytes@);
    }
    let text = match string_from_utf8(bytes) {
        Ok(t) => t,
        Err(e) => return Err(ServerError::InvalidUtf8(e)),
    };
    let is_ok = tag.eq(&String::from_str("ok"));
    let is_err = tag.eq(&String::from_str("err"));
    if is_ok {
        Ok(text)
    } else if is_err {
        Err(ServerError::Lisp(text))
    } else {
        Err(ServerError::UnknownTag(tag))
    }
}

/// The logged head of an expression: its first 80 characters, followed by
/// `...` when it is longer.
pub open spec fn sexp_head_of(s: Seq<char>) -> Seq<char> {
    if s.len() > 80 {
        s.take(80) + "..."@
    } else {
        s
    }
}

/// Truncates an expression for log output.
pub fn sexp_head(s: &str) -> (head: String)
    ensures
        head@ == sexp_head_of(s@),
{
    let v = chars_of(s);
    if v.len() > 80 {
        let mut head = string_of(&v, 0, 80);
        push_str(&mut head, "...");
        head
    } else {
        string_of(&v, 0, v.len())
    }
}

/// The worker-pool size for a machine with `parallelism` hardware threads
/// (one when that is unknown), capped at eight.
pub fn pool_size_for(parallelism: Option<usize>) -> (n: usize)
    ensures
        n == match parallelism {
            Some(p) => if p < 8 {
                p
            } else {
                8
            },
            None => 1,
        },
{
    let p = match parallelism {
        Some(p) => p,
        None => 1,
    };
    if p < 8 {
        p
    } else {
        8
    }
}

/// Whether a kanji-information reply says ichiran knows nothing of the
/// character: `[]` once trimmed.
pub fn is_empty_kanji_reply(output: &str) -> (b: bool)
    ensures
        b == (crate::text::trim(output@) == "[]"@),
{
    let t = crate::text::trim_string(output);
    t.eq(&String::from_str("[]"))
}

/// The Lisp program each worker runs: it prints `READY`, then answers
/// every base64 request line with `ok <base64>` holding what the evaluated
/// form printed, or `err <base64>` holding the printed condition.
pub const SERVER_LOOP: &'static str = r#"(progn
  (write-line "READY")
  (force-output)
  (loop for line = (read-line *standard-input* nil nil)
        while line
        do (let ((form-str (sb-ext:octets-to-string
                             (cl-base64:base64-string-to-usb8-array line)
                             :external-format :utf-8)))
             (handler-case
                 (let* ((buf (make-string-output-stream))
                        (out (progn
                               (let ((*standard-output* buf))
                                 (eval (read-from-string form-str)))
                               (get-output-stream-string buf)))
                        (out64 (cl-base64:usb8-array-to-base64-string
                                 (sb-ext:string-to-octets out :external-format :utf-8))))
                   (format t "ok ~A~%" out64))
               (error (e)
                 (let ((msg64 (cl-base64:usb8-array-to-base64-string
                                (sb-ext:string-to-octets (prin1-to-string e) :external-format :utf-8))))
                   (format t "err ~A~%" msg64))))
             (force-output))))"#;

/// Whether a line a starting worker printed is its `READY` handshake
/// (trailing whitespace ignored).
pub fn is_ready_line(line: &str) -> (b: bool)
    ensures
        b == (crate::text::trim_end(line@) == "READY"@),
{
    let v = chars_of(line);
    let j = crate::text::skip_ws_back(&v, 0, v.len());
    assert(v@.subrange(0, v@.len() as int) =~= v@);
    let head = string_of(&v, 0, j);
    assert(head@ =~= crate::text::trim_end(line@));
    head.eq(&String::from_str("READY"))
}

} // verus!
