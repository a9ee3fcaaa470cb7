//! User-selectable modes of the frontend, and the drawing decisions that
//! follow from them for glossed text.

use vstd::prelude::*;

verus! {

/// Graphics backend.
#[derive(Debug, Clone, Copy, PartialEq, Eq, Structural)]
pub enum RendererType {
    Glow,
    Direct3D11,
}

/// What is drawn above glossed words.
#[derive(Debug, Clone, Copy, PartialEq, Eq, Structural)]
pub enum RubyTextType {
    /// No ruby (shown as "None").
    Off,
    Furigana,
    Romaji,
}

/// Translation backend.
#[derive(Debug, Clone, Copy, PartialEq, Eq, Structural)]
pub enum TranslatorType {
    Chat,
    Responses,
    Realtime,
}

/// How the Realtime session truncates its conversation: drop the oldest
/// messages at the input limit, never truncate (the server errors), or
/// truncate early down to a retention ratio.
#[derive(Debug, Clone, Copy, PartialEq, Eq, Structural)]
pub enum TruncationMode {
    Auto,
    Disabled,
    RetentionRatio,
}

impl RendererType {
    /// The variant's name.
    pub fn name(&self) -> (s: &'static str)
        ensures
            s@ == match *self {
                RendererType::Glow => "Glow"@,
                RendererType::Direct3D11 => "Direct3D11"@,
            },
    {
        match self {
            RendererType::Glow => "Glow",
            RendererType::Direct3D11 => "Direct3D11",
        }
    }

    /// The variant at position `n` in declaration order.
    pub fn from_u32(n: u32) -> (r: Option<RendererType>)
        ensures
            n == 0 ==> r == Some(RendererType::Glow),
            n == 1 ==> r == Some(RendererType::Direct3D11),
            n > 1 ==> r is None,
    {
        if n == 0 {
            Some(RendererType::Glow)
        } else if n == 1 {
            Some(RendererType::Direct3D11)
        } else {
            None
        }
    }

    /// All variants in declaration order.
    pub fn variants() -> (v: Vec<RendererType>)
        ensures
            v@ == seq![RendererType::Glow, RendererType::Direct3D11],
    {
        let v = vec![RendererType::Glow, RendererType::Direct3D11];
        assert(v@ =~= seq![RendererType::Glow, RendererType::Direct3D11]);
        v
    }
}

impl RubyTextType {
    /// The variant's name.
    pub fn name(&self) -> (s: &'static str)
        ensures
            s@ == match *self {
                RubyTextType::Off => "None"@,
                RubyTextType::Furigana => "Furigana"@,
                RubyTextType::Romaji => "Romaji"@,
            },
    {
        match self {
            RubyTextType::Off => "None",
            RubyTextType::Furigana => "Furigana",
            RubyTextType::Romaji => "Romaji",
        }
    }

    /// All variants in declaration order.
    pub fn variants() -> (v: Vec<RubyTextType>)
        ensures
            v@ == seq![RubyTextType::Off, RubyTextType::Furigana, RubyTextType::Romaji],
    {
        let v = vec![RubyTextType::Off, RubyTextType::Furigana, RubyTextType::Romaji];
        assert(v@ =~= seq![RubyTextType::Off, RubyTextType::Furigana, RubyTextType::Romaji]);
        v
    }
}

impl TranslatorType {
    /// The variant's name.
    pub fn name(&self) -> (s: &'static str)
        ensures
            s@ == match *self {
                TranslatorType::Chat => "Chat"@,
                TranslatorType::Responses => "Responses"@,
                TranslatorType::Realtime => "Realtime"@,
            },
    {
        match self {
            TranslatorType::Chat => "Chat",
            TranslatorType::Responses => "Responses",
            TranslatorType::Realtime => "Realtime",
        }
    }

    /// All variants in declaration order.
    pub fn variants() -> (v: Vec<TranslatorType>)
        ensures
            v@ == seq![TranslatorType::Chat, TranslatorType::Responses, TranslatorType::Realtime],
    {
        let v = vec![TranslatorType::Chat, TranslatorType::Responses, TranslatorType::Realtime];
        assert(v@ =~= seq![TranslatorType::Chat, TranslatorType::Responses, TranslatorType::Realtime]);
        v
    }
}

impl TruncationMode {
    /// The name shown for the mode.
    pub fn name(&self) -> (s: &'static str)
        ensures
            s@ == match *self {
                TruncationMode::Auto => "Auto"@,
                TruncationMode::Disabled => "Disabled"@,
                TruncationMode::RetentionRatio => "Retention ratio"@,
            },
    {
        match self {
            TruncationMode::Auto => "Auto",
            TruncationMode::Disabled => "Disabled",
            TruncationMode::RetentionRatio => "Retention ratio",
        }
    }

    /// All variants in declaration order.
    pub fn variants() -> (v: Vec<TruncationMode>)
        ensures
            v@ == seq![TruncationMode::Auto, TruncationMode::Disabled, TruncationMode::RetentionRatio],
    {
        let v = vec![TruncationMode::Auto, TruncationMode::Disabled, TruncationMode::RetentionRatio];
        assert(v@ =~= seq![TruncationMode::Auto, TruncationMode::Disabled, TruncationMode::RetentionRatio]);
        v
    }
}

/// How a glossed word is underlined: drawn, padded for, or neither.
#[derive(Debug, Clone, Copy, PartialEq, Eq, Structural)]
pub enum UnderlineMode {
    Normal,
    Pad,
    Off,
}

/// What is drawn above a word: some text, room for text, or nothing.
#[derive(Debug, Clone, Copy, PartialEq, Eq)]
pub enum RubyTextMode<'a> {
    Text(&'a str),
    Pad,
    Off,
}

/// How a block of glossed text is drawn.
#[derive(Debug, Clone, Copy, PartialEq, Eq, Structural)]
pub struct KanjiStyle {
    pub highlight: bool,
    pub stroke: bool,
    pub preview: bool,
    pub underline: UnderlineMode,
}

/// Ruby above a glossed term: nothing when ruby is off, the reading in
/// furigana mode unless it spells the term itself, the romaji in romaji
/// mode, and room for text otherwise.
pub fn ruby_for_term<'a>(ruby: RubyTextType, text: &str, kana: &'a str, romaji: &'a str) -> (m: RubyTextMode<'a>)
    ensures
        ruby == RubyTextType::Off ==> m == RubyTextMode::Off,
        ruby == RubyTextType::Furigana && text@ != kana@ ==> m == RubyTextMode::Text(kana),
        ruby == RubyTextType::Furigana && text@ == kana@ ==> m == RubyTextMode::Pad,
        ruby == RubyTextType::Romaji ==> m == RubyTextMode::Text(romaji),
{
    match ruby {
        RubyTextType::Off => RubyTextMode::Off,
        RubyTextType::Furigana => if String::from_str(text).eq(&String::from_str(kana)) {
            RubyTextMode::Pad
        } else {
            RubyTextMode::Text(kana)
        },
        RubyTextType::Romaji => RubyTextMode::Text(romaji),
    }
}

/// Ruby above text that is not glossed (skipped or not yet parsed): room
/// for text unless ruby is off.
pub fn ruby_for_plain<'a>(ruby: RubyTextType) -> (m: RubyTextMode<'a>)
    ensures
        ruby == RubyTextType::Off ==> m == RubyTextMode::Off,
        ruby != RubyTextType::Off ==> m == RubyTextMode::Pad,
{
    match ruby {
        RubyTextType::Off => RubyTextMode::Off,
        _ => RubyTextMode::Pad,
    }
}

/// Underline of term `idx` of a clause with `terms` terms, in a segment with
/// `clauses` alternative clauses: a segment with alternatives underlines its
/// last term and pads the others; a segment without alternatives has no
/// underline.
pub fn underline_for_term(clauses: usize, idx: usize, terms: usize) -> (u: UnderlineMode)
    requires
        idx < terms,
    ensures
        clauses <= 1 ==> u == UnderlineMode::Off,
        clauses > 1 && idx == terms - 1 ==> u == UnderlineMode::Normal,
        clauses > 1 && idx != terms - 1 ==> u == UnderlineMode::Pad,
{
    if clauses > 1 {
        if idx == terms - 1 {
            UnderlineMode::Normal
        } else {
            UnderlineMode::Pad
        }
    } else {
        UnderlineMode::Off
    }
}

/// Style of skipped (unglossed) text: no highlight, stroked unless it is a
/// preview or stroking is off, no underline.
pub fn skipped_style(preview: bool, stroke_text: bool) -> (s: KanjiStyle)
    ensures
        s == (KanjiStyle {
            highlight: false,
            stroke: !preview && stroke_text,
            preview,
            underline: UnderlineMode::Off,
        }),
{
    KanjiStyle { highlight: false, stroke: !preview && stroke_text, preview, underline: UnderlineMode::Off }
}

/// Style of text waiting to be glossed: highlighted like the clause boxes to
/// come, a preview, not stroked, no underline.
pub fn preview_style() -> (s: KanjiStyle)
    ensures
        s == (KanjiStyle { highlight: true, stroke: false, preview: true, underline: UnderlineMode::Off }),
{
    KanjiStyle { highlight: true, stroke: false, preview: true, underline: UnderlineMode::Off }
}

/// Style of a glossed term: highlighted, stroked as configured, with the
/// given underline.
pub fn term_style(stroke_text: bool, underline: UnderlineMode) -> (s: KanjiStyle)
    ensures
        s == (KanjiStyle { highlight: true, stroke: stroke_text, preview: false, underline }),
{
    KanjiStyle { highlight: true, stroke: stroke_text, preview: false, underline }
}

/// Timeouts of the HTTP client, in milliseconds.
#[derive(Debug, Clone, Copy, PartialEq, Eq, Structural)]
pub struct ConnectionPolicy {
    pub timeout_ms: u64,
    pub connect_timeout_ms: u64,
}

impl Default for ConnectionPolicy {
    fn default() -> (p: Self)
        ensures
            p.timeout_ms == 10_000,
            p.connect_timeout_ms == 3_000,
    {
        ConnectionPolicy { timeout_ms: 10_000, connect_timeout_ms: 3_000 }
    }
}

} // verus!
