//! Dictionary data exchanged with ichiran: custom JMdict entries, the
//! part-of-speech table and the database connection parameters, plus the
//! Lisp expressions that drive the ichiran process.

use vstd::hash_map::StringHashMap;
use vstd::prelude::*;

use crate::lisp::{lisp_literal, lisp_string};
use crate::text::{chars_of, decimal, push_char, push_decimal, push_str};

verus! {

/// First seq handed out to entries inserted with a custom-entry expression.
/// JMdict's own seqs sit in the low millions; this stays below `i32::MAX`.
pub const CUSTOM_SEQ_BASE: u32 = 1_000_000_000;

/// Hands out the seqs of custom entries, from [`CUSTOM_SEQ_BASE`] up.
#[derive(Debug, Clone, Copy, PartialEq, Eq, Structural)]
pub struct CustomSeqAllocator {
    pub next: u32,
}

impl CustomSeqAllocator {
    /// An allocator whose first seq is [`CUSTOM_SEQ_BASE`].
    pub fn new() -> (a: Self)
        ensures
            a.next == CUSTOM_SEQ_BASE,
    {
        CustomSeqAllocator { next: CUSTOM_SEQ_BASE }
    }

    /// Hands out the next seq; no seq is handed out twice until a reset.
    pub fn allocate(&mut self) -> (seq: u32)
        requires
            old(self).next < u32::MAX,
        ensures
            seq == old(self).next,
            final(self).next == old(self).next + 1,
    {
        let s = self.next;
        self.next = s + 1;
        s
    }

    /// All custom entries were deleted: seqs start over at the base.
    pub fn reset(&mut self)
        ensures
            final(self).next == CUSTOM_SEQ_BASE,
    {
        self.next = CUSTOM_SEQ_BASE;
    }
}

/// Escaped form of one character in XML text.
pub open spec fn xml_escape_char(c: char) -> Seq<char> {
    if c == '&' {
        "&amp;"@
    } else if c == '<' {
        "&lt;"@
    } else if c == '>' {
        "&gt;"@
    } else if c == '"' {
        "&quot;"@
    } else {
        seq![c]
    }
}

/// `s` with every character escaped by [`xml_escape_char`].
pub open spec fn xml_escape(s: Seq<char>) -> Seq<char>
    decreases s.len(),
{
    if s.len() == 0 {
        Seq::empty()
    } else {
        xml_escape(s.drop_last()) + xml_escape_char(s.last())
    }
}

/// Appends `s`, XML-escaped, to `out`.
pub fn xml_escape_into(s: &str, out: &mut String)
    ensures
        final(out)@ == old(out)@ + xml_escape(s@),
{
    let v = chars_of(s);
    let mut i: usize = 0;
    let ghost start = out@;
    while i < v.len()
        invariant
            i <= v@.len(),
            v@ == s@,
            out@ == start + xml_escape(v@.take(i as int)),
        decreases v@.len() - i,
    {
        let c = v[i];
        if c == '&' {
            push_str(out, "&amp;");
        } else if c == '<' {
            push_str(out, "&lt;");
        } else if c == '>' {
            push_str(out, "&gt;");
        } else if c == '"' {
            push_str(out, "&quot;");
        } else {
            push_char(out, c);
        }
        proof {
            assert(v@.take(i + 1).drop_last() =~= v@.take(i as int));
            assert(out@ =~= start + xml_escape(v@.take(i + 1)));
        }
        i = i + 1;
    }
    assert(v@.take(i as int) =~= v@);
}

/// A custom dictionary entry to inject into ichiran's database. Pure-kana
/// names leave `kanji` empty; `pos` is a JMdict part-of-speech code (`n-pr`
/// for proper nouns).
#[derive(Debug)]
pub struct CustomEntry {
    pub kanji: Option<String>,
    pub kana: String,
    pub pos: String,
    pub gloss: String,
}

impl Clone for CustomEntry {
    fn clone(&self) -> (e: Self)
        ensures
            e == *self,
    {
        CustomEntry {
            kanji: self.kanji.clone(),
            kana: self.kana.clone(),
            pos: self.pos.clone(),
            gloss: self.gloss.clone(),
        }
    }
}

/// The JMdict XML `<entry>` element for a custom entry: an empty `ent_seq`,
/// a kanji element if there is kanji, the reading, and one sense with the
/// part of speech and an English gloss, all text XML-escaped.
pub open spec fn entry_xml(e: CustomEntry) -> Seq<char> {
    "<entry><ent_seq></ent_seq>"@ + match e.kanji {
        Some(k) => "<k_ele><keb>"@ + xml_escape(k@) + "</keb></k_ele>"@,
        None => Seq::empty(),
    } + "<r_ele><reb>"@ + xml_escape(e.kana@) + "</reb></r_ele><sense><pos>"@ + xml_escape(e.pos@)
        + "</pos><gloss xml:lang=\"eng\">"@ + xml_escape(e.gloss@) + "</gloss></sense></entry>"@
}

impl CustomEntry {
    /// The entry as JMdict XML (see [`entry_xml`]).
    pub fn to_xml(&self) -> (out: String)
        ensures
            out@ == entry_xml(*self),
    {
        let mut out = String::new();
        push_str(&mut out, "<entry><ent_seq></ent_seq>");
        match &self.kanji {
            Some(kanji) => {
                push_str(&mut out, "<k_ele><keb>");
                xml_escape_into(kanji.as_str(), &mut out);
                push_str(&mut out, "</keb></k_ele>");
            },
            None => {},
        }
        push_str(&mut out, "<r_ele><reb>");
        xml_escape_into(self.kana.as_str(), &mut out);
        push_str(&mut out, "</reb></r_ele><sense><pos>");
        xml_escape_into(self.pos.as_str(), &mut out);
        push_str(&mut out, "</pos><gloss xml:lang=\"eng\">");
        xml_escape_into(self.gloss.as_str(), &mut out);
        push_str(&mut out, "</gloss></sense></entry>");
        assert(out@ =~= entry_xml(*self));
        out
    }
}

/// A row of JMdict's part-of-speech keyword table.
#[derive(Debug)]
pub struct KwPos {
    pub id: u32,
    pub kw: String,
    pub descr: String,
    pub ents: String,
}

impl Clone for KwPos {
    fn clone(&self) -> (k: Self)
        ensures
            k == *self,
    {
        KwPos { id: self.id, kw: self.kw.clone(), descr: self.descr.clone(), ents: self.ents.clone() }
    }
}

/// JMdict metadata: part-of-speech rows by keyword.
pub struct JmDictData {
    pub kwpos_by_kw: StringHashMap<KwPos>,
}

/// The part-of-speech map after the errata: `cop-da` was renamed `cop`, but
/// ichiran still reports `cop-da`, so it is given `cop`'s row.
pub open spec fn with_errata(m: Map<Seq<char>, KwPos>) -> Map<Seq<char>, KwPos> {
    if m.contains_key("cop"@) {
        m.insert("cop-da"@, m["cop"@])
    } else {
        m
    }
}

/// The part-of-speech map built from table rows: each row under its
/// keyword, a later row replacing an earlier one with the same keyword.
pub open spec fn kwpos_map(rows: Seq<KwPos>) -> Map<Seq<char>, KwPos>
    decreases rows.len(),
{
    if rows.len() == 0 {
        Map::empty()
    } else {
        kwpos_map(rows.drop_last()).insert(rows.last().kw@, rows.last())
    }
}

impl JmDictData {
    /// Data with no rows.
    pub fn empty() -> (d: Self)
        ensures
            d.kwpos_by_kw@ == Map::<Seq<char>, KwPos>::empty(),
    {
        JmDictData { kwpos_by_kw: StringHashMap::new() }
    }

    /// Builds the data from the rows of the keyword table, then applies the
    /// errata.
    pub fn from_records(rows: Vec<KwPos>) -> (d: Self)
        ensures
            d.kwpos_by_kw@ == with_errata(kwpos_map(rows@)),
    {
        let mut m: StringHashMap<KwPos> = StringHashMap::new();
        let mut i: usize = 0;
        while i < rows.len()
            invariant
                i <= rows@.len(),
                m@ == kwpos_map(rows@.take(i as int)),
            decreases rows@.len() - i,
        {
            let row = rows[i].clone();
            let key = row.kw.clone();
            m.insert(key, row);
            assert(rows@.take(i + 1).drop_last() =~= rows@.take(i as int));
            i = i + 1;
        }
        assert(rows@.take(i as int) =~= rows@);
        let mut d = JmDictData { kwpos_by_kw: m };
        d.add_errata();
        d
    }

    fn add_errata(&mut self)
        ensures
            final(self).kwpos_by_kw@ == with_errata(old(self).kwpos_by_kw@),
    {
        let cop = match self.kwpos_by_kw.get("cop") {
            Some(row) => Some(row.clone()),
            None => None,
        };
        proof {
            reveal_strlit("cop");
        }
        match cop {
            Some(row) => {
                self.kwpos_by_kw.insert(String::from_str("cop-da"), row);
                proof {
                    reveal_strlit("cop-da");
                }
            },
            None => {},
        }
    }
}

/// Connection parameters of ichiran's PostgreSQL database.
#[derive(Debug)]
pub struct ConnParams {
    pub database: String,
    pub user: String,
    pub password: String,
    pub hostname: String,
    pub port: u16,
}

} // verus!

verus! {

/// The fields ichiran prints for its connection, `database,user,password,
/// hostname,<unused>,port` after trimming: exactly six comma-separated
/// pieces and a port that parses as `u16`.
pub open spec fn conn_params_fields(out: Seq<char>) -> Option<(Seq<char>, Seq<char>, Seq<char>, Seq<char>, nat)> {
    let p = crate::text::split(crate::text::trim(out), ',');
    if p.len() == 6 && crate::text::u16_from_str(p[5]) is Some {
        Some((p[0], p[1], p[2], p[3], crate::text::u16_from_str(p[5])->0))
    } else {
        None
    }
}

impl ConnParams {
    /// Parses ichiran's connection printout (see [`conn_params_fields`]);
    /// `None` is a parse error.
    pub fn parse(output: &str) -> (r: Option<ConnParams>)
        ensures
            match conn_params_fields(output@) {
                Some((d, u, pw, h, port)) => r matches Some(c) && c.database@ == d && c.user@ == u
                    && c.password@ == pw && c.hostname@ == h && c.port as nat == port,
                None => r is None,
            },
    {
        let trimmed = crate::text::trim_string(output);
        let mut pieces = crate::text::split_char(trimmed.as_str(), ',');
        if pieces.len() != 6 {
            return None;
        }
        let port = match crate::text::parse_u16(pieces[5].as_str()) {
            Some(p) => p,
            None => return None,
        };
        assert(crate::text::views(pieces@)[5] == pieces@[5]@);
        let hostname = pieces.remove(3);
        let password = pieces.remove(2);
        let user = pieces.remove(1);
        let database = pieces.remove(0);
        Some(ConnParams { database, user, password, hostname, port })
    }
}

} // verus!

verus! {

/// Expression printing the JMdict data directory ichiran uses.
pub const JMDICT_PATH_EXPR: &'static str = "(format t \"~d\" ichiran/dict::*jmdict-data*)";

/// Expression printing ichiran's database connection, comma-separated.
pub const CONN_PARAMS_EXPR: &'static str = "(format t \"~{~a~^,~}\" ichiran/conn::*connection*)";

/// Expression segmenting `text` into at most `limit` romanized variants,
/// printed as JSON.
pub open spec fn romanize_expr_of(text: Seq<char>, limit: u32) -> Seq<char> {
    "(princ (jsown:to-json (ichiran:romanize* "@ + lisp_literal(text) + " :limit "@ + decimal(
        limit as nat,
    ) + ")))"@
}

/// Builds the expression of [`romanize_expr_of`].
pub fn romanize_expr(text: &str, limit: u32) -> (e: String)
    ensures
        e@ == romanize_expr_of(text@, limit),
{
    let mut e = String::new();
    push_str(&mut e, "(princ (jsown:to-json (ichiran:romanize* ");
    let lit = lisp_string(text);
    push_str(&mut e, lit.as_str());
    push_str(&mut e, " :limit ");
    push_decimal(&mut e, limit as usize);
    push_str(&mut e, ")))");
    assert(e@ =~= romanize_expr_of(text@, limit));
    e
}

/// Expression printing the kanji information of `c` as JSON (`[]` when
/// ichiran has none).
pub open spec fn kanji_info_expr_of(c: char) -> Seq<char> {
    "(princ (jsown:to-json (ichiran/kanji:kanji-info-json #\\"@.push(c) + ")))"@
}

/// Builds the expression of [`kanji_info_expr_of`].
pub fn kanji_info_expr(c: char) -> (e: String)
    ensures
        e@ == kanji_info_expr_of(c),
{
    let mut e = String::new();
    push_str(&mut e, "(princ (jsown:to-json (ichiran/kanji:kanji-info-json #\\");
    push_char(&mut e, c);
    push_str(&mut e, ")))");
    assert(e@ =~= kanji_info_expr_of(c));
    e
}

/// Expression loading `entry` into the database under `seq`, overwriting
/// an existing entry with that seq and without generating conjugations.
pub open spec fn load_entry_expr_of(entry: CustomEntry, seq: u32) -> Seq<char> {
    "(postmodern:with-connection ichiran/conn:*connection* (ichiran/dict::load-entry "@
        + lisp_literal(entry_xml(entry)) + " :seq "@ + decimal(seq as nat)
        + " :if-exists :overwrite :conjugate-p nil))"@
}

/// Builds the expression of [`load_entry_expr_of`].
pub fn load_entry_expr(entry: &CustomEntry, seq: u32) -> (e: String)
    ensures
        e@ == load_entry_expr_of(*entry, seq),
{
    let xml = entry.to_xml();
    let mut e = String::new();
    push_str(&mut e, "(postmodern:with-connection ichiran/conn:*connection* (ichiran/dict::load-entry ");
    let lit = lisp_string(xml.as_str());
    push_str(&mut e, lit.as_str());
    push_str(&mut e, " :seq ");
    push_decimal(&mut e, seq as usize);
    push_str(&mut e, " :if-exists :overwrite :conjugate-p nil))");
    assert(e@ =~= load_entry_expr_of(*entry, seq));
    e
}

/// Expression deleting every entry whose seq is at least
/// [`CUSTOM_SEQ_BASE`].
pub open spec fn clear_custom_entries_expr_of() -> Seq<char> {
    "(postmodern:with-connection ichiran/conn:*connection* (postmodern:query (:delete-from 'entry :where (:>= 'seq "@
        + decimal(CUSTOM_SEQ_BASE as nat) + "))))"@
}

/// Builds the expression of [`clear_custom_entries_expr_of`].
pub fn clear_custom_entries_expr() -> (e: String)
    ensures
        e@ == clear_custom_entries_expr_of(),
{
    let mut e = String::new();
    push_str(
        &mut e,
        "(postmodern:with-connection ichiran/conn:*connection* (postmodern:query (:delete-from 'entry :where (:>= 'seq ",
    );
    push_decimal(&mut e, CUSTOM_SEQ_BASE as usize);
    push_str(&mut e, "))))");
    assert(e@ =~= clear_custom_entries_expr_of());
    e
}

/// Expression printing the hiragana of a romaji string.
pub open spec fn romaji_kana_expr_of(romaji: Seq<char>) -> Seq<char> {
    "(princ (ichiran:romaji-kana "@ + lisp_literal(romaji) + "))"@
}

/// Builds the expression of [`romaji_kana_expr_of`].
pub fn romaji_kana_expr(romaji: &str) -> (e: String)
    ensures
        e@ == romaji_kana_expr_of(romaji@),
{
    let mut e = String::new();
    push_str(&mut e, "(princ (ichiran:romaji-kana ");
    let lit = lisp_string(romaji);
    push_str(&mut e, lit.as_str());
    push_str(&mut e, "))");
    assert(e@ =~= romaji_kana_expr_of(romaji@));
    e
}

} // verus!
