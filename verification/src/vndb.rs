//! Visual-novel context from VNDB: the records the frontend keeps of a
//! searched or active visual novel, the system-prompt fragment rendered from
//! its characters, the dictionary entries made of their names, and the state
//! updates that apply fetch results unless a newer request superseded them.

use vstd::prelude::*;

use crate::bbcode::{clean_description, cleaned_description};
use crate::dict::CustomEntry;
use crate::text::{nonempty_trimmed, nonempty_trimmed_of, push_char, push_str, split, split_char, views};

verus! {

/// Opening of the system-prompt fragment for an active visual novel.
pub const VNDB_PROMPT_PREAMBLE: &'static str = "Use the information in the following character summaries. When the speaker needs to be inferred, try your best using the character information provided. If you are unsure of the speaker's gender, use neutral pronouns such as 'singular -they'.";

/// A character's sex as VNDB records it.
#[derive(Clone, Copy, Debug, PartialEq, Eq, Structural)]
pub enum Sex {
    Male,
    Female,
    Both,
    Sexless,
}

/// The word shown for a sex.
pub open spec fn sex_label(s: Sex) -> Seq<char> {
    match s {
        Sex::Male => "male"@,
        Sex::Female => "female"@,
        Sex::Both => "both"@,
        Sex::Sexless => "sexless"@,
    }
}

impl Sex {
    /// The word shown for this sex.
    pub fn label(&self) -> (l: &'static str)
        ensures
            l@ == sex_label(*self),
    {
        match self {
            Sex::Male => "male",
            Sex::Female => "female",
            Sex::Both => "both",
            Sex::Sexless => "sexless",
        }
    }
}

/// A developer credited on a visual novel.
#[derive(Clone, Debug)]
pub struct Developer {
    pub id: String,
    pub name: String,
}

/// A visual novel as a search result or as the active one. `rating` is
/// VNDB's 10-100 rating in hundredths of a point.
#[derive(Clone, Debug)]
pub struct VnSummary {
    pub id: String,
    pub title: String,
    pub alttitle: Option<String>,
    pub released: Option<String>,
    pub length: Option<u8>,
    pub rating: Option<u32>,
    pub votecount: Option<u32>,
    pub description: Option<String>,
    pub developers: Vec<Developer>,
    pub platforms: Vec<String>,
}

/// A character's role in one visual novel (`main`, `primary`, `side`,
/// `appears`).
#[derive(Clone, Debug)]
pub struct CharacterVn {
    pub id: String,
    pub role: String,
}

/// A character with the visual novels it appears in.
#[derive(Clone, Debug)]
pub struct Character {
    pub id: String,
    pub name: String,
    pub original: Option<String>,
    pub sex: Option<Sex>,
    pub aliases: Vec<String>,
    pub description: Option<String>,
    pub vns: Vec<CharacterVn>,
}

/// The role of the first entry of `vns`, from `k` on, whose visual novel is
/// `vn_id`.
pub open spec fn role_from(vns: Seq<CharacterVn>, vn_id: Seq<char>, k: int) -> Option<Seq<char>>
    decreases vns.len() - k,
{
    if k < 0 || k >= vns.len() {
        None
    } else if vns[k].id@ == vn_id {
        Some(vns[k].role@)
    } else {
        role_from(vns, vn_id, k + 1)
    }
}

/// The character's role in visual novel `vn_id`.
pub open spec fn role_of(ch: Character, vn_id: Seq<char>) -> Option<Seq<char>> {
    role_from(ch.vns@, vn_id, 0)
}

impl Character {
    /// The character's role in visual novel `vn_id`, if it appears there.
    pub fn role_for(&self, vn_id: &str) -> (r: Option<&str>)
        ensures
            match role_of(*self, vn_id@) {
                Some(role) => r matches Some(s) && s@ == role,
                None => r is None,
            },
    {
        let id = String::from_str(vn_id);
        let mut k: usize = 0;
        while k < self.vns.len()
            invariant
                k <= self.vns@.len(),
                id@ == vn_id@,
                role_of(*self, vn_id@) == role_from(self.vns@, vn_id@, k as int),
            decreases self.vns@.len() - k,
        {
            if self.vns[k].id == id {
                return Some(self.vns[k].role.as_str());
            }
            k = k + 1;
        }
        None
    }
}

/// The active visual novel, its characters and the prompt fragment
/// rendered from them.
#[derive(Clone, Debug)]
pub struct ActiveVn {
    pub summary: VnSummary,
    pub characters: Vec<Character>,
    pub prompt: String,
}

/// What the frontend knows of VNDB: the last search and the active visual
/// novel.
#[derive(Clone, Debug)]
pub struct VndbState {
    pub search_query: String,
    pub search_results: Vec<VnSummary>,
    pub searching: bool,
    pub loading_active: bool,
    pub active: Option<ActiveVn>,
    pub last_error: Option<String>,
}

impl Default for VndbState {
    fn default() -> (s: Self)
        ensures
            s.search_query@ == Seq::<char>::empty(),
            s.search_results@.len() == 0,
            !s.searching,
            !s.loading_active,
            s.active is None,
            s.last_error is None,
    {
        VndbState {
            search_query: String::new(),
            search_results: Vec::new(),
            searching: false,
            loading_active: false,
            active: None,
            last_error: None,
        }
    }
}

/// The prompt fragment of the active visual novel, when there is one and it
/// is not empty.
pub open spec fn state_prompt(s: VndbState) -> Option<Seq<char>> {
    match s.active {
        Some(a) => if a.prompt@.len() > 0 {
            Some(a.prompt@)
        } else {
            None
        },
        None => None,
    }
}

impl VndbState {
    /// The active visual novel's prompt fragment; `None` when no visual
    /// novel is active or the fragment is empty.
    pub fn prompt(&self) -> (p: Option<&str>)
        ensures
            match state_prompt(*self) {
                Some(t) => p matches Some(s) && s@ == t,
                None => p is None,
            },
    {
        match &self.active {
            Some(a) => if a.prompt.as_str().is_empty() {
                None
            } else {
                Some(a.prompt.as_str())
            },
            None => None,
        }
    }
}

/// The active visual novel's id is `id`.
pub open spec fn active_is(s: VndbState, id: Seq<char>) -> bool {
    s.active matches Some(a) && a.summary.id@ == id
}

/// Whether the active visual novel is the one with id `id`.
pub fn active_id_is(state: &VndbState, id: &str) -> (b: bool)
    ensures
        b == active_is(*state, id@),
{
    match &state.active {
        Some(a) => a.summary.id == String::from_str(id),
        None => false,
    }
}

/// The stand-in summary held while the real one for `id` is fetched: only
/// the id is real, the title reads `...`.
pub fn placeholder_summary(id: &str) -> (s: VnSummary)
    ensures
        s.id@ == id@,
        s.title@ == "..."@,
        s.alttitle is None,
        s.released is None,
        s.length is None,
        s.rating is None,
        s.votecount is None,
        s.description is None,
        s.developers@.len() == 0,
        s.platforms@.len() == 0,
{
    VnSummary {
        id: String::from_str(id),
        title: String::from_str("..."),
        alttitle: None,
        released: None,
        length: None,
        rating: None,
        votecount: None,
        description: None,
        developers: Vec::new(),
        platforms: Vec::new(),
    }
}

/// `parts` with `sep` between each two (`slice::join`).
pub open spec fn join_with(parts: Seq<Seq<char>>, sep: Seq<char>) -> Seq<char>
    decreases parts.len(),
{
    if parts.len() == 0 {
        Seq::empty()
    } else if parts.len() == 1 {
        parts[0]
    } else {
        join_with(parts.drop_last(), sep) + sep + parts.last()
    }
}

/// Appends `parts` joined by `sep` to `out`.
pub fn push_joined(out: &mut String, parts: &Vec<String>, sep: &str)
    ensures
        final(out)@ == old(out)@ + join_with(views(parts@), sep@),
{
    let ghost start = out@;
    let mut k: usize = 0;
    while k < parts.len()
        invariant
            k <= parts@.len(),
            out@ == start + join_with(views(parts@).take(k as int), sep@),
        decreases parts@.len() - k,
    {
        let ghost before = views(parts@).take(k as int);
        if k > 0 {
            push_str(out, sep);
        }
        push_str(out, parts[k].as_str());
        proof {
            let after = views(parts@).take(k + 1);
            assert(after.drop_last() =~= before);
            assert(after.last() == parts@[k as int]@);
            if k == 0 {
                assert(after.len() == 1);
                assert(out@ =~= start + join_with(after, sep@));
            } else {
                assert(out@ =~= start + join_with(after, sep@));
            }
        }
        k = k + 1;
    }
    assert(views(parts@).take(k as int) =~= views(parts@));
}

/// `name (romaji)` when the original name is known, else the romaji name.
pub open spec fn name_part(ch: Character) -> Seq<char> {
    match ch.original {
        Some(o) => o@ + " ("@ + ch.name@ + ")"@,
        None => ch.name@,
    }
}

/// ` [sex]` when the sex is known.
pub open spec fn sex_part(ch: Character) -> Seq<char> {
    match ch.sex {
        Some(s) => " ["@ + sex_label(s) + "]"@,
        None => Seq::empty(),
    }
}

/// ` [role]` when the character has a role in `vn_id`.
pub open spec fn role_part(ch: Character, vn_id: Seq<char>) -> Seq<char> {
    match role_of(ch, vn_id) {
        Some(r) => " ["@ + r + "]"@,
        None => Seq::empty(),
    }
}

/// ` (aka: a; b)` over the aliases that are not blank, trimmed.
pub open spec fn alias_part(ch: Character) -> Seq<char> {
    let aliases = nonempty_trimmed(views(ch.aliases@));
    if aliases.len() > 0 {
        " (aka: "@ + join_with(aliases, "; "@) + ")"@
    } else {
        Seq::empty()
    }
}

/// `: ` and the cleaned description on one line, its non-blank lines
/// trimmed and joined by ` / `; nothing when it cleans to nothing.
pub open spec fn description_part(ch: Character) -> Seq<char> {
    match ch.description {
        Some(d) => {
            let c = cleaned_description(d@);
            if c.len() > 0 {
                ": "@ + join_with(nonempty_trimmed(split(c, '\n')), " / "@)
            } else {
                Seq::empty()
            }
        },
        None => Seq::empty(),
    }
}

/// One character's line of the prompt fragment.
pub open spec fn character_line(ch: Character, vn_id: Seq<char>) -> Seq<char> {
    "- "@ + name_part(ch) + sex_part(ch) + role_part(ch, vn_id) + alias_part(ch) + description_part(ch)
        + "\n"@
}

/// The lines of two runs of characters are the lines of the first run
/// followed by those of the second: no character's line is lost, moved or
/// repeated.
pub proof fn law_character_lines_concatenate(a: Seq<Character>, b: Seq<Character>, vn_id: Seq<char>)
    ensures
        character_lines(a + b, vn_id) == character_lines(a, vn_id) + character_lines(b, vn_id),
    decreases b.len(),
{
    if b.len() == 0 {
        assert(a + b =~= a);
        assert(character_lines(a, vn_id) + character_lines(b, vn_id) =~= character_lines(a, vn_id));
    } else {
        law_character_lines_concatenate(a, b.drop_last(), vn_id);
        assert((a + b).drop_last() =~= a + b.drop_last());
        assert((a + b).last() == b.last());
        assert(character_lines(a + b, vn_id) =~= character_lines(a, vn_id) + character_lines(b, vn_id));
    }
}

/// One character's lines are its line.
pub proof fn law_single_character_line(ch: Character, vn_id: Seq<char>)
    ensures
        character_lines(seq![ch], vn_id) == character_line(ch, vn_id),
{
    assert(seq![ch].drop_last() =~= Seq::<Character>::empty());
    assert(seq![ch].last() == ch);
    assert(character_lines(Seq::<Character>::empty(), vn_id) == Seq::<char>::empty());
    assert(character_lines(seq![ch], vn_id) =~= character_line(ch, vn_id));
}

/// The prompt fragment for a visual novel and its characters is the
/// fragment without characters followed by the characters' lines: more
/// characters only add lines at the end.
pub proof fn law_prompt_ends_with_the_character_lines(summary: VnSummary, chs: Seq<Character>)
    ensures
        prompt_text(summary, chs) == prompt_text(summary, Seq::<Character>::empty()) + character_lines(
            chs,
            summary.id@,
        ),
{
    assert(character_lines(Seq::<Character>::empty(), summary.id@) == Seq::<char>::empty());
    assert(prompt_text(summary, chs) =~= prompt_text(summary, Seq::<Character>::empty()) + character_lines(
        chs,
        summary.id@,
    ));
}

/// A character's line shows its role in the visual novel, as ` [role]`
/// right after its names and (when known) its sex, whether or not the sex
/// is known.
pub proof fn law_role_shown_whatever_the_sex(ch: Character, vn_id: Seq<char>)
    ensures
        role_of(ch, vn_id) matches Some(r) ==> {
            let at: int = 2int + name_part(ch).len() + sex_part(ch).len();
            character_line(ch, vn_id).subrange(at, at + r.len() + 3int) == " ["@ + r + "]"@
        },
{
    if let Some(r) = role_of(ch, vn_id) {
        let at: int = 2int + name_part(ch).len() + sex_part(ch).len();
        let head = "- "@ + name_part(ch) + sex_part(ch);
        let role = " ["@ + r + "]"@;
        let rest = alias_part(ch) + description_part(ch) + "\n"@;
        reveal_strlit("- ");
        reveal_strlit(" [");
        reveal_strlit("]");
        assert(head.len() == at);
        assert(character_line(ch, vn_id) =~= head + role + rest);
        assert(character_line(ch, vn_id).subrange(at, at + r.len() + 3int) =~= role);
    }
}

/// Knowing a character's sex only adds its ` [sex]` label after the names:
/// the rest of the line, role included, is the same as for the character
/// with an unknown sex.
pub proof fn law_sex_only_adds_its_label(ch: Character, vn_id: Seq<char>)
    ensures
        ({
            let unsexed = Character {
                id: ch.id,
                name: ch.name,
                original: ch.original,
                sex: None,
                aliases: ch.aliases,
                description: ch.description,
                vns: ch.vns,
            };
            character_line(ch, vn_id) == "- "@ + name_part(ch) + sex_part(ch) + character_line(unsexed, vn_id).skip(
                2int + name_part(ch).len(),
            )
        }),
{
    let unsexed = Character {
        id: ch.id,
        name: ch.name,
        original: ch.original,
        sex: None,
        aliases: ch.aliases,
        description: ch.description,
        vns: ch.vns,
    };
    reveal_strlit("- ");
    assert(name_part(unsexed) == name_part(ch));
    assert(role_of(unsexed, vn_id) == role_of(ch, vn_id));
    assert(character_line(unsexed, vn_id).skip(2int + name_part(ch).len()) =~= role_part(ch, vn_id) + alias_part(ch)
        + description_part(ch) + "\n"@);
    assert(character_line(ch, vn_id) =~= "- "@ + name_part(ch) + sex_part(ch) + character_line(
        unsexed,
        vn_id,
    ).skip(2int + name_part(ch).len()));
}

/// The lines of all characters, in order.
pub open spec fn character_lines(chs: Seq<Character>, vn_id: Seq<char>) -> Seq<char>
    decreases chs.len(),
{
    if chs.len() == 0 {
        Seq::empty()
    } else {
        character_lines(chs.drop_last(), vn_id) + character_line(chs.last(), vn_id)
    }
}

/// The system-prompt fragment for a visual novel and its characters.
pub open spec fn prompt_text(summary: VnSummary, chs: Seq<Character>) -> Seq<char> {
    VNDB_PROMPT_PREAMBLE@ + "\n\nVisual novel: "@ + summary.title@ + match summary.alttitle {
        Some(a) => " ("@ + a@ + ")"@,
        None => Seq::empty(),
    } + "\n\nCharacters:\n"@ + character_lines(chs, summary.id@)
}

/// Appends [`name_part`] to `out`.
fn push_name_part(out: &mut String, ch: &Character)
    ensures
        final(out)@ == old(out)@ + name_part(*ch),
{
    match &ch.original {
        Some(orig) => {
            push_str(out, orig.as_str());
            push_str(out, " (");
            push_str(out, ch.name.as_str());
            push_str(out, ")");
        },
        None => {
            push_str(out, ch.name.as_str());
        },
    }
    assert(final(out)@ =~= old(out)@ + name_part(*ch));
}

/// Appends [`sex_part`] and [`role_part`] to `out`.
fn push_sex_and_role(out: &mut String, ch: &Character, vn_id: &str)
    ensures
        final(out)@ == old(out)@ + sex_part(*ch) + role_part(*ch, vn_id@),
{
    match ch.sex {
        Some(sex) => {
            push_str(out, " [");
            push_str(out, sex.label());
            push_str(out, "]");
        },
        None => {},
    }
    let ghost mid = out@;
    assert(mid =~= old(out)@ + sex_part(*ch));
    match ch.role_for(vn_id) {
        Some(role) => {
            push_str(out, " [");
            push_str(out, role);
            push_str(out, "]");
        },
        None => {},
    }
    assert(out@ =~= mid + role_part(*ch, vn_id@));
}

/// Appends [`alias_part`] to `out`.
fn push_alias_part(out: &mut String, ch: &Character)
    ensures
        final(out)@ == old(out)@ + alias_part(*ch),
{
    let aliases = nonempty_trimmed_of(&ch.aliases);
    if aliases.len() > 0 {
        push_str(out, " (aka: ");
        push_joined(out, &aliases, "; ");
        push_str(out, ")");
    }
    assert(out@ =~= old(out)@ + alias_part(*ch));
}

/// Appends [`description_part`] to `out`.
fn push_description_part(out: &mut String, ch: &Character)
    ensures
        final(out)@ == old(out)@ + description_part(*ch),
{
    match &ch.description {
        Some(desc) => {
            let cleaned = clean_description(desc.as_str());
            if !cleaned.as_str().is_empty() {
                push_str(out, ": ");
                let segments = nonempty_trimmed_of(&split_char(cleaned.as_str(), '\n'));
                push_joined(out, &segments, " / ");
            }
        },
        None => {},
    }
    assert(out@ =~= old(out)@ + description_part(*ch));
}

/// Appends one character's line to `out`.
fn push_character_line(out: &mut String, ch: &Character, vn_id: &str)
    ensures
        final(out)@ == old(out)@ + character_line(*ch, vn_id@),
{
    push_str(out, "- ");
    push_name_part(out, ch);
    push_sex_and_role(out, ch, vn_id);
    push_alias_part(out, ch);
    push_description_part(out, ch);
    push_char(out, '\n');
    proof {
        reveal_strlit("\n");
    }
    assert(out@ =~= old(out)@ + character_line(*ch, vn_id@));
}

/// Renders the system-prompt fragment for a visual novel: the preamble, the
/// title (with the alternative title), then one line per character with its
/// names, sex, role in this visual novel, aliases and cleaned description.
pub fn build_prompt(summary: &VnSummary, characters: &[Character]) -> (out: String)
    ensures
        out@ == prompt_text(*summary, characters@),
{
    let mut out = String::new();
    push_str(&mut out, VNDB_PROMPT_PREAMBLE);
    push_str(&mut out, "\n\nVisual novel: ");
    push_str(&mut out, summary.title.as_str());
    match &summary.alttitle {
        Some(alt) => {
            push_str(&mut out, " (");
            push_str(&mut out, alt.as_str());
            push_str(&mut out, ")");
        },
        None => {},
    }
    push_str(&mut out, "\n\nCharacters:\n");
    let ghost head = out@;
    let mut k: usize = 0;
    while k < characters.len()
        invariant
            k <= characters@.len(),
            out@ == head + character_lines(characters@.take(k as int), summary.id@),
        decreases characters@.len() - k,
    {
        push_character_line(&mut out, &characters[k], summary.id.as_str());
        proof {
            let after = characters@.take(k + 1);
            assert(after.drop_last() =~= characters@.take(k as int));
            assert(after.last() == characters@[k as int]);
        }
        k = k + 1;
    }
    assert(characters@.take(k as int) =~= characters@);
    assert(out@ =~= prompt_text(*summary, characters@));
    out
}

/// One name token of a character, with the full name it belongs to. Drafts
/// that share their kanji and reading become one dictionary entry.
pub struct DraftEntry {
    pub kanji: Option<String>,
    pub kana: String,
    pub full_name: String,
}

/// The characters of an optional string.
pub open spec fn opt_view(o: Option<String>) -> Option<Seq<char>> {
    match o {
        Some(s) => Some(s@),
        None => None,
    }
}

/// A group of drafts: kanji, reading, and the distinct full names in the
/// order they came.
pub type GroupView = (Option<Seq<char>>, Seq<char>, Seq<Seq<char>>);

/// The first group, from `k` on, with the given kanji and reading.
pub open spec fn group_from(gs: Seq<GroupView>, kanji: Option<Seq<char>>, kana: Seq<char>, k: int) -> Option<int>
    decreases gs.len() - k,
{
    if k < 0 || k >= gs.len() {
        None
    } else if gs[k].0 == kanji && gs[k].1 == kana {
        Some(k)
    } else {
        group_from(gs, kanji, kana, k + 1)
    }
}

/// The groups after adding one draft: its full name joins the group of its
/// kanji and reading unless it is there already; a new key opens a group at
/// the end.
pub open spec fn add_draft(gs: Seq<GroupView>, d: DraftEntry) -> Seq<GroupView> {
    match group_from(gs, opt_view(d.kanji), d.kana@, 0) {
        Some(j) => if gs[j].2.contains(d.full_name@) {
            gs
        } else {
            gs.update(j, (gs[j].0, gs[j].1, gs[j].2.push(d.full_name@)))
        },
        None => gs.push((opt_view(d.kanji), d.kana@, seq![d.full_name@])),
    }
}

/// The groups of a list of drafts, in order of first appearance.
pub open spec fn draft_groups(ds: Seq<DraftEntry>) -> Seq<GroupView>
    decreases ds.len(),
{
    if ds.len() == 0 {
        Seq::empty()
    } else {
        add_draft(draft_groups(ds.drop_last()), ds.last())
    }
}

/// The dictionary entry of a group: a proper noun whose gloss lists the
/// full names, joined by `; `.
pub open spec fn is_group_entry(e: CustomEntry, g: GroupView) -> bool {
    &&& opt_view(e.kanji) == g.0
    &&& e.kana@ == g.1
    &&& e.pos@ == "n-pr"@
    &&& e.gloss@ == join_with(g.2, "; "@)
}

/// A group being built.
struct DraftGroup {
    kanji: Option<String>,
    kana: String,
    names: Vec<String>,
}

spec fn group_view(g: DraftGroup) -> GroupView {
    (opt_view(g.kanji), g.kana@, views(g.names@))
}

spec fn groups_view(gs: Seq<DraftGroup>) -> Seq<GroupView> {
    gs.map_values(|g: DraftGroup| group_view(g))
}

/// Whether two optional strings are equal.
fn opt_string_eq(a: &Option<String>, b: &Option<String>) -> (r: bool)
    ensures
        r == (opt_view(*a) == opt_view(*b)),
{
    match (a, b) {
        (Some(x), Some(y)) => x.eq(y),
        (None, None) => true,
        _ => false,
    }
}

/// Whether `name` is among `names`.
fn contains_name(names: &Vec<String>, name: &String) -> (r: bool)
    ensures
        r == views(names@).contains(name@),
{
    let mut k: usize = 0;
    while k < names.len()
        invariant
            k <= names@.len(),
            forall|m: int| 0 <= m < k ==> names@[m]@ != name@,
        decreases names@.len() - k,
    {
        if names[k] == *name {
            assert(views(names@)[k as int] == name@);
            return true;
        }
        k = k + 1;
    }
    proof {
        if views(names@).contains(name@) {
            let m = choose|m: int| 0 <= m < views(names@).len() && views(names@)[m] == name@;
            assert(names@[m]@ == name@);
        }
    }
    false
}

/// The index of the group with the given kanji and reading.
fn find_group(groups: &Vec<DraftGroup>, kanji: &Option<String>, kana: &String) -> (r: Option<usize>)
    ensures
        match r {
            Some(j) => group_from(groups_view(groups@), opt_view(*kanji), kana@, 0) == Some(j as int)
                && j < groups@.len(),
            None => group_from(groups_view(groups@), opt_view(*kanji), kana@, 0) is None,
        },
{
    let ghost gv = groups_view(groups@);
    let mut j: usize = 0;
    while j < groups.len()
        invariant
            j <= groups@.len(),
            gv == groups_view(groups@),
            group_from(gv, opt_view(*kanji), kana@, 0) == group_from(gv, opt_view(*kanji), kana@, j as int),
        decreases groups@.len() - j,
    {
        assert(gv[j as int] == group_view(groups@[j as int]));
        if opt_string_eq(&groups[j].kanji, kanji) && groups[j].kana == *kana {
            return Some(j);
        }
        j = j + 1;
    }
    None
}

/// Adds one draft to the groups being built.
fn add_to_groups(groups: &mut Vec<DraftGroup>, d: &DraftEntry)
    ensures
        groups_view(final(groups)@) == add_draft(groups_view(old(groups)@), *d),
{
    let ghost gv = groups_view(groups@);
    match find_group(groups, &d.kanji, &d.kana) {
        Some(j) => {
            assert(gv[j as int] == group_view(groups@[j as int]));
            if !contains_name(&groups[j].names, &d.full_name) {
                let mut g = groups.remove(j);
                g.names.push(d.full_name.clone());
                groups.insert(j, g);
                proof {
                    assert(views(g.names@) =~= gv[j as int].2.push(d.full_name@));
                    assert(groups_view(groups@) =~= gv.update(
                        j as int,
                        (gv[j as int].0, gv[j as int].1, gv[j as int].2.push(d.full_name@)),
                    ));
                }
            }
        },
        None => {
            let g = DraftGroup {
                kanji: d.kanji.clone(),
                kana: d.kana.clone(),
                names: vec![d.full_name.clone()],
            };
            groups.push(g);
            proof {
                assert(views(g.names@) =~= seq![d.full_name@]);
                assert(groups_view(groups@) =~= gv.push((opt_view(d.kanji), d.kana@, seq![d.full_name@])));
            }
        },
    }
}

/// Merges drafts that share kanji and reading into one `n-pr` entry whose
/// gloss lists the distinct full names, joined by `; `, in the order they
/// came; the entries come in the order their keys first appear.
pub fn group_drafts(drafts: Vec<DraftEntry>) -> (entries: Vec<CustomEntry>)
    ensures
        entries@.len() == draft_groups(drafts@).len(),
        forall|i: int| 0 <= i < entries@.len() ==> is_group_entry(
            #[trigger] entries@[i],
            draft_groups(drafts@)[i],
        ),
{
    let mut groups: Vec<DraftGroup> = Vec::new();
    let mut k: usize = 0;
    assert(groups_view(groups@) =~= draft_groups(drafts@.take(0)));
    while k < drafts.len()
        invariant
            k <= drafts@.len(),
            groups_view(groups@) == draft_groups(drafts@.take(k as int)),
        decreases drafts@.len() - k,
    {
        add_to_groups(&mut groups, &drafts[k]);
        proof {
            let after = drafts@.take(k + 1);
            assert(after.drop_last() =~= drafts@.take(k as int));
            assert(after.last() == drafts@[k as int]);
        }
        k = k + 1;
    }
    assert(drafts@.take(k as int) =~= drafts@);
    let ghost gv = groups_view(groups@);
    let mut entries: Vec<CustomEntry> = Vec::new();
    let mut m: usize = 0;
    while m < groups.len()
        invariant
            m <= groups@.len(),
            gv == groups_view(groups@),
            entries@.len() == m,
            forall|i: int| 0 <= i < m ==> is_group_entry(#[trigger] entries@[i], gv[i]),
        decreases groups@.len() - m,
    {
        let mut gloss = String::new();
        push_joined(&mut gloss, &groups[m].names, "; ");
        let e = CustomEntry {
            kanji: groups[m].kanji.clone(),
            kana: groups[m].kana.clone(),
            pos: String::from_str("n-pr"),
            gloss,
        };
        assert(gv[m as int] == group_view(groups@[m as int]));
        entries.push(e);
        m = m + 1;
    }
    entries
}

/// No two groups share kanji and reading.
pub open spec fn keys_distinct(gs: Seq<GroupView>) -> bool {
    forall|i: int, j: int|
        0 <= i < j < gs.len() ==> !(#[trigger] gs[i].0 == #[trigger] gs[j].0 && gs[i].1 == gs[j].1)
}

/// Some group has the draft's kanji and reading and lists its full name.
pub open spec fn covers(gs: Seq<GroupView>, d: DraftEntry) -> bool {
    exists|i: int|
        0 <= i < gs.len() && gs[i].0 == opt_view(d.kanji) && gs[i].1 == d.kana@ && (
        #[trigger] gs[i]).2.contains(d.full_name@)
}

pub proof fn lemma_group_from(gs: Seq<GroupView>, kanji: Option<Seq<char>>, kana: Seq<char>, k: int)
    requires
        0 <= k,
    ensures
        group_from(gs, kanji, kana, k) matches Some(j) ==> k <= j < gs.len() && gs[j].0 == kanji
            && gs[j].1 == kana,
        group_from(gs, kanji, kana, k) is None ==> forall|m: int|
            k <= m < gs.len() ==> !(gs[m].0 == kanji && gs[m].1 == kana),
    decreases gs.len() - k,
{
    if k < gs.len() && !(gs[k].0 == kanji && gs[k].1 == kana) {
        lemma_group_from(gs, kanji, kana, k + 1);
    }
}

/// Grouping drafts gives one group per distinct kanji and reading, every
/// draft's full name is listed in the group of its kanji and reading, and
/// no group lists a name twice.
pub proof fn law_draft_groups(ds: Seq<DraftEntry>)
    ensures
        keys_distinct(draft_groups(ds)),
        forall|k: int| 0 <= k < ds.len() ==> covers(draft_groups(ds), #[trigger] ds[k]),
        forall|i: int|
            0 <= i < draft_groups(ds).len() ==> (#[trigger] draft_groups(ds)[i]).2.no_duplicates(),
    decreases ds.len(),
{
    if ds.len() > 0 {
        let prev = ds.drop_last();
        law_draft_groups(prev);
        let gs = draft_groups(prev);
        let d = ds.last();
        let key0 = opt_view(d.kanji);
        let key1 = d.kana@;
        let ng = draft_groups(ds);
        assert(ng == add_draft(gs, d));
        lemma_group_from(gs, key0, key1, 0);
        match group_from(gs, key0, key1, 0) {
            Some(j) => {
                if !gs[j].2.contains(d.full_name@) {
                    assert(ng[j].2 == gs[j].2.push(d.full_name@));
                    assert(ng[j].2[gs[j].2.len() as int] == d.full_name@);
                }
                assert(ng[j].2.contains(d.full_name@));
                assert forall|i: int, n: Seq<char>| 0 <= i < gs.len() && gs[i].2.contains(n) implies ng[i].2.contains(n) by {
                    if i == j && !gs[j].2.contains(d.full_name@) {
                        let m = choose|m: int| 0 <= m < gs[i].2.len() && gs[i].2[m] == n;
                        assert(ng[i].2[m] == n);
                    }
                }
                assert forall|k: int| 0 <= k < ds.len() implies covers(ng, #[trigger] ds[k]) by {
                    if k < ds.len() - 1 {
                        assert(ds[k] == prev[k]);
                        assert(covers(gs, prev[k]));
                        let i = choose|i: int|
                            0 <= i < gs.len() && gs[i].0 == opt_view(prev[k].kanji) && gs[i].1 == prev[k].kana@
                                && (#[trigger] gs[i]).2.contains(prev[k].full_name@);
                        assert(ng[i].2.contains(prev[k].full_name@));
                        assert(ng[i].0 == gs[i].0 && ng[i].1 == gs[i].1);
                    } else {
                        assert(ng[j].0 == key0 && ng[j].1 == key1);
                    }
                }
                assert forall|i: int| 0 <= i < ng.len() implies (#[trigger] ng[i]).2.no_duplicates() by {
                    if i == j && !gs[j].2.contains(d.full_name@) {
                        assert(gs[j].2.no_duplicates());
                        let ns = gs[j].2.push(d.full_name@);
                        assert forall|a: int, b: int| 0 <= a < ns.len() && 0 <= b < ns.len() && a != b implies ns[a] != ns[b] by {
                            if a == gs[j].2.len() {
                                assert(ns[b] == gs[j].2[b]);
                            } else if b == gs[j].2.len() {
                                assert(ns[a] == gs[j].2[a]);
                            }
                        }
                    }
                }
            },
            None => {
                assert(ng == gs.push((key0, key1, seq![d.full_name@])));
                assert(ng[gs.len() as int].2[0] == d.full_name@);
                assert forall|k: int| 0 <= k < ds.len() implies covers(ng, #[trigger] ds[k]) by {
                    if k < ds.len() - 1 {
                        assert(ds[k] == prev[k]);
                        assert(covers(gs, prev[k]));
                        let i = choose|i: int|
                            0 <= i < gs.len() && gs[i].0 == opt_view(prev[k].kanji) && gs[i].1 == prev[k].kana@
                                && (#[trigger] gs[i]).2.contains(prev[k].full_name@);
                        assert(ng[i] == gs[i]);
                    } else {
                        assert(ng[gs.len() as int].2.contains(d.full_name@));
                    }
                }
                assert forall|i: int| 0 <= i < ng.len() implies (#[trigger] ng[i]).2.no_duplicates() by {
                    if i < gs.len() {
                        assert(ng[i] == gs[i]);
                    }
                }
            },
        }
    }
}

/// The error text for a visual-novel id VNDB does not know.
pub open spec fn not_found_text(id: Seq<char>) -> Seq<char> {
    "vndb id "@ + id + " not found"@
}

/// The error text for a visual-novel id VNDB does not know.
pub fn not_found_message(id: &str) -> (m: String)
    ensures
        m@ == not_found_text(id@),
{
    let mut m = String::from_str("vndb id ");
    push_str(&mut m, id);
    push_str(&mut m, " not found");
    m
}

/// Whether a freshly computed prompt fragment differs from the one last
/// handed out, so that listeners are told.
pub fn prompt_changed(now: Option<&str>, last: Option<&str>) -> (changed: bool)
    ensures
        changed == (match (now, last) {
            (Some(a), Some(b)) => a@ != b@,
            (None, None) => false,
            _ => true,
        }),
{
    match (now, last) {
        (Some(a), Some(b)) => !String::from_str(a).eq(&String::from_str(b)),
        (None, None) => false,
        _ => true,
    }
}

impl VndbState {
    /// A search for `query` starts: it becomes the current query.
    pub fn begin_search(&mut self, query: String)
        ensures
            final(self).search_query == query,
            final(self).searching,
            final(self).search_results == old(self).search_results,
            final(self).loading_active == old(self).loading_active,
            final(self).active == old(self).active,
            final(self).last_error == old(self).last_error,
    {
        self.searching = true;
        self.search_query = query;
    }

    /// The outcome of the search for `query` arrives. It is dropped when the
    /// user has searched for something else since; otherwise the results
    /// replace the old ones, or the error is recorded.
    pub fn finish_search(&mut self, query: &str, result: Result<Vec<VnSummary>, String>)
        ensures
            old(self).search_query@ != query@ ==> *final(self) == *old(self),
            old(self).search_query@ == query@ ==> {
                &&& !final(self).searching
                &&& final(self).search_query == old(self).search_query
                &&& final(self).loading_active == old(self).loading_active
                &&& final(self).active == old(self).active
                &&& match result {
                    Ok(results) => final(self).search_results == results && final(self).last_error
                        == old(self).last_error,
                    Err(e) => final(self).last_error == Some(e) && final(self).search_results
                        == old(self).search_results,
                }
            },
    {
        if !self.search_query.eq(&String::from_str(query)) {
            return;
        }
        match result {
            Ok(results) => {
                self.search_results = results;
                self.searching = false;
            },
            Err(e) => {
                self.searching = false;
                self.last_error = Some(e);
            },
        }
    }

    /// A visual novel is chosen: it becomes active at once, without
    /// characters or prompt, while they load.
    pub fn begin_set_active(&mut self, summary: VnSummary)
        ensures
            final(self).loading_active,
            final(self).active matches Some(a) && a.summary == summary && a.characters@.len() == 0
                && a.prompt@.len() == 0,
            final(self).search_query == old(self).search_query,
            final(self).search_results == old(self).search_results,
            final(self).searching == old(self).searching,
            final(self).last_error == old(self).last_error,
    {
        self.loading_active = true;
        self.active = Some(ActiveVn { summary, characters: Vec::new(), prompt: String::new() });
    }

    /// A visual novel is chosen by id: a stand-in summary for `id` takes the
    /// active slot while the real one is fetched.
    pub fn begin_set_active_by_id(&mut self, id: &str)
        ensures
            final(self).loading_active,
            active_is(*final(self), id@),
            final(self).active matches Some(a) && a.summary.title@ == "..."@ && a.characters@.len()
                == 0 && a.prompt@.len() == 0,
            final(self).search_query == old(self).search_query,
            final(self).search_results == old(self).search_results,
            final(self).searching == old(self).searching,
            final(self).last_error == old(self).last_error,
    {
        self.loading_active = true;
        self.active = Some(
            ActiveVn { summary: placeholder_summary(id), characters: Vec::new(), prompt: String::new() },
        );
    }

    /// A fetch for visual novel `id` failed with `message`. When `id` is
    /// still the active one it is dropped and the error recorded; otherwise
    /// nothing changes. Returns whether the failure landed.
    pub fn fail_active(&mut self, id: &str, message: String) -> (landed: bool)
        ensures
            landed == active_is(*old(self), id@),
            !landed ==> *final(self) == *old(self),
            landed ==> {
                &&& final(self).active is None
                &&& !final(self).loading_active
                &&& final(self).last_error == Some(message)
                &&& final(self).search_query == old(self).search_query
                &&& final(self).search_results == old(self).search_results
                &&& final(self).searching == old(self).searching
            },
    {
        if !active_id_is(self, id) {
            return false;
        }
        self.active = None;
        self.loading_active = false;
        self.last_error = Some(message);
        true
    }

    /// The characters of `summary` arrive. When it is still the active
    /// visual novel it becomes active with them and with the prompt
    /// fragment rendered from them; otherwise nothing changes. Returns
    /// whether they landed.
    pub fn land_characters(&mut self, summary: VnSummary, characters: Vec<Character>) -> (landed:
        bool)
        ensures
            landed == active_is(*old(self), summary.id@),
            !landed ==> *final(self) == *old(self),
            landed ==> {
                &&& final(self).active matches Some(a) && a.summary == summary && a.characters
                    == characters && a.prompt@ == prompt_text(summary, characters@)
                &&& !final(self).loading_active
                &&& final(self).last_error == old(self).last_error
                &&& final(self).search_query == old(self).search_query
                &&& final(self).search_results == old(self).search_results
                &&& final(self).searching == old(self).searching
            },
    {
        if !active_id_is(self, summary.id.as_str()) {
            return false;
        }
        let prompt = build_prompt(&summary, characters.as_slice());
        self.active = Some(ActiveVn { summary, characters, prompt });
        self.loading_active = false;
        true
    }

    /// No visual novel is active any more.
    pub fn clear_active(&mut self)
        ensures
            final(self).active is None,
            !final(self).loading_active,
            final(self).last_error == old(self).last_error,
            final(self).search_query == old(self).search_query,
            final(self).search_results == old(self).search_results,
            final(self).searching == old(self).searching,
    {
        self.active = None;
        self.loading_active = false;
    }
}

/// Once characters have landed, the state offers their prompt fragment: a
/// rendered fragment is never empty, so it is never withheld.
pub proof fn law_landed_prompt_is_offered(s: VndbState, summary: VnSummary, chs: Seq<Character>)
    requires
        s.active matches Some(a) && a.prompt@ == prompt_text(summary, chs),
    ensures
        state_prompt(s) == Some(prompt_text(summary, chs)),
{
    reveal_strlit("\n\nVisual novel: ");
    let t = prompt_text(summary, chs);
    let head = VNDB_PROMPT_PREAMBLE@ + "\n\nVisual novel: "@;
    assert(head.len() >= 16);
    assert(t.len() >= head.len());
}

/// The (name, romaji) pairs a character's dictionary entries are made of,
/// aliases aside. A character without an original name gives none. A name of
/// several words whose romaji has as many words gives one pair per word
/// (surnames and given names appear alone in dialogue), paired in order; and
/// every such character gives the whole name, words run together, with its
/// whole romaji.
pub open spec fn name_sources_of(ch: Character) -> Seq<(Seq<char>, Seq<char>)> {
    match ch.original {
        Some(o) => if crate::text::trim(o@).len() > 0 {
            let ot = crate::text::words(crate::text::trim(o@));
            let nt = crate::text::words(ch.name@);
            let per_word = if ot.len() > 1 && ot.len() == nt.len() {
                Seq::new(ot.len(), |k: int| (ot[k], nt[k]))
            } else {
                Seq::empty()
            };
            per_word.push((crate::text::concat_all(ot), crate::text::concat_all(nt)))
        } else {
            Seq::empty()
        },
        None => Seq::empty(),
    }
}

/// The pairs of [`name_sources_of`], as strings.
pub fn name_sources(ch: &Character) -> (pairs: Vec<(String, String)>)
    ensures
        pairs@.map_values(|p: (String, String)| (p.0@, p.1@)) == name_sources_of(*ch),
{
    let mut pairs: Vec<(String, String)> = Vec::new();
    let original = match &ch.original {
        Some(o) => crate::text::trim_string(o.as_str()),
        None => {
            assert(pairs@.map_values(|p: (String, String)| (p.0@, p.1@)) =~= name_sources_of(*ch));
            return pairs;
        },
    };
    if original.as_str().is_empty() {
        assert(pairs@.map_values(|p: (String, String)| (p.0@, p.1@)) =~= name_sources_of(*ch));
        return pairs;
    }
    let ot = crate::text::words_of(original.as_str());
    let nt = crate::text::words_of(ch.name.as_str());
    let ghost ov = views(ot@);
    let ghost nv = views(nt@);
    if ot.len() > 1 && ot.len() == nt.len() {
        let mut k: usize = 0;
        while k < ot.len()
            invariant
                k <= ot@.len(),
                ot@.len() == nt@.len(),
                ov == views(ot@),
                nv == views(nt@),
                pairs@.map_values(|p: (String, String)| (p.0@, p.1@)) == Seq::new(
                    k as nat,
                    |j: int| (ov[j], nv[j]),
                ),
            decreases ot@.len() - k,
        {
            let ghost before = pairs@.map_values(|p: (String, String)| (p.0@, p.1@));
            let a = ot[k].clone();
            let b = nt[k].clone();
            assert(a@ == ov[k as int] && b@ == nv[k as int]);
            pairs.push((a, b));
            assert(pairs@.map_values(|p: (String, String)| (p.0@, p.1@)) =~= before.push((ov[k as int], nv[k as int])));
            assert(pairs@.map_values(|p: (String, String)| (p.0@, p.1@)) =~= Seq::new(
                (k + 1) as nat,
                |j: int| (ov[j], nv[j]),
            ));
            k = k + 1;
        }
    }
    let ghost per = pairs@.map_values(|p: (String, String)| (p.0@, p.1@));
    let full_original = crate::text::concat_strings(&ot);
    let full_name = crate::text::concat_strings(&nt);
    pairs.push((full_original, full_name));
    assert(pairs@.map_values(|p: (String, String)| (p.0@, p.1@)) =~= per.push(
        (crate::text::concat_all(ov), crate::text::concat_all(nv)),
    ));
    pairs
}

/// What making a draft for a name token needs.
#[derive(Debug)]
pub enum DraftRequest {
    /// The token is blank, or has kanji but no romaji: no draft.
    Skip,
    /// A kana-only token is its own reading (no kanji element).
    KanaOnly { kana: String },
    /// A token with kanji needs the reading of its romaji.
    Reading { kanji: String, romaji: String },
}

/// Decides how to make the draft for a trimmed `token` paired with
/// `romaji`, given whether the token holds kanji.
pub fn draft_request(token: &str, romaji: &str, has_kanji: bool) -> (r: DraftRequest)
    ensures
        crate::text::trim(token@).len() == 0 ==> r is Skip,
        crate::text::trim(token@).len() > 0 && !has_kanji ==> (r matches DraftRequest::KanaOnly { kana }
            && kana@ == crate::text::trim(token@)),
        crate::text::trim(token@).len() > 0 && has_kanji && crate::text::trim(romaji@).len() == 0 ==> r is Skip,
        crate::text::trim(token@).len() > 0 && has_kanji && crate::text::trim(romaji@).len() > 0 ==> (
        r matches DraftRequest::Reading { kanji, romaji: ro } && kanji@ == crate::text::trim(token@) && ro@
            == crate::text::trim(romaji@)),
{
    let t = crate::text::trim_string(token);
    if t.as_str().is_empty() {
        return DraftRequest::Skip;
    }
    if !has_kanji {
        return DraftRequest::KanaOnly { kana: t };
    }
    let r = crate::text::trim_string(romaji);
    if r.as_str().is_empty() {
        return DraftRequest::Skip;
    }
    DraftRequest::Reading { kanji: t, romaji: r }
}

/// The draft for a request, once any reading has come back: a kana-only
/// token is drafted as is; a kanji token gets the trimmed reading, unless
/// the lookup failed or gave nothing.
pub fn draft_from(request: DraftRequest, reading: Option<Result<String, String>>, full_name: &str) -> (d: Option<DraftEntry>)
    ensures
        match request {
            DraftRequest::Skip => d is None,
            DraftRequest::KanaOnly { kana } => d matches Some(e) && e.kanji is None && e.kana == kana
                && e.full_name@ == full_name@,
            DraftRequest::Reading { kanji, .. } => match reading {
                Some(Ok(k)) => if crate::text::trim(k@).len() > 0 {
                    d matches Some(e) && e.kanji == Some(kanji) && e.kana@ == crate::text::trim(k@)
                        && e.full_name@ == full_name@
                } else {
                    d is None
                },
                _ => d is None,
            },
        },
{
    match request {
        DraftRequest::Skip => None,
        DraftRequest::KanaOnly { kana } => Some(DraftEntry { kanji: None, kana, full_name: String::from_str(full_name) }),
        DraftRequest::Reading { kanji, romaji: _ } => match reading {
            Some(Ok(k)) => {
                let kana = crate::text::trim_string(k.as_str());
                if kana.as_str().is_empty() {
                    None
                } else {
                    Some(DraftEntry { kanji: Some(kanji), kana, full_name: String::from_str(full_name) })
                }
            },
            _ => None,
        },
    }
}

} // verus!
