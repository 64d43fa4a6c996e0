use vstd::prelude::*;

verus! {

/// A block-level element of a parsed message.
#[derive(Debug, PartialEq, Eq)]
pub enum Block {
    Para(Vec<Span>),
    Quote { wide: bool, blocks: Vec<Block> },
    Code { lang: String, body: String },
    Heading(u8, Vec<Span>),
    Subtext(Vec<Span>),
    List { ordered: bool, items: Vec<Vec<Span>> },
}

/// An inline element of a parsed message.
#[derive(Debug, PartialEq, Eq)]
pub enum Span {
    Text(String),
    Bold(Vec<Span>),
    Italic(Vec<Span>),
    Underline(Vec<Span>),
    Strike(Vec<Span>),
    Spoiler(Vec<Span>),
    Code(String),
    Link { url: String, label: Vec<Span> },
    Autolink(String),
    Emoji { id: String, name: String, animated: bool },
    Mention(MentionKind),
    Timestamp { unix: i64, style: char },
}

/// Who or what a mention points at.
#[derive(Debug, PartialEq, Eq)]
pub enum MentionKind {
    User(String),
    Channel(String),
    Role(String),
    Everyone,
    Here,
}

/// The mathematical value of a [`MentionKind`]: strings as character sequences.
pub enum MentionM {
    User(Seq<char>),
    Channel(Seq<char>),
    Role(Seq<char>),
    Everyone,
    Here,
}

/// The mathematical value of a [`Span`].
pub enum SpanM {
    Text(Seq<char>),
    Bold(Seq<SpanM>),
    Italic(Seq<SpanM>),
    Underline(Seq<SpanM>),
    Strike(Seq<SpanM>),
    Spoiler(Seq<SpanM>),
    Code(Seq<char>),
    Link { url: Seq<char>, label: Seq<SpanM> },
    Autolink(Seq<char>),
    Emoji { id: Seq<char>, name: Seq<char>, animated: bool },
    Mention(MentionM),
    Timestamp { unix: i64, style: char },
}

/// The mathematical value of a [`Block`].
pub enum BlockM {
    Para(Seq<SpanM>),
    Quote { wide: bool, blocks: Seq<BlockM> },
    Code { lang: Seq<char>, body: Seq<char> },
    Heading(u8, Seq<SpanM>),
    Subtext(Seq<SpanM>),
    List { ordered: bool, items: Seq<Seq<SpanM>> },
}

pub open spec fn mention_m(m: MentionKind) -> MentionM {
    match m {
        MentionKind::User(id) => MentionM::User(id@),
        MentionKind::Channel(id) => MentionM::Channel(id@),
        MentionKind::Role(id) => MentionM::Role(id@),
        MentionKind::Everyone => MentionM::Everyone,
        MentionKind::Here => MentionM::Here,
    }
}

pub open spec fn span_m(s: Span) -> SpanM
    decreases s,
{
    match s {
        Span::Text(t) => SpanM::Text(t@),
        Span::Bold(v) => SpanM::Bold(spans_m(v@)),
        Span::Italic(v) => SpanM::Italic(spans_m(v@)),
        Span::Underline(v) => SpanM::Underline(spans_m(v@)),
        Span::Strike(v) => SpanM::Strike(spans_m(v@)),
        Span::Spoiler(v) => SpanM::Spoiler(spans_m(v@)),
        Span::Code(t) => SpanM::Code(t@),
        Span::Link { url, label } => SpanM::Link { url: url@, label: spans_m(label@) },
        Span::Autolink(u) => SpanM::Autolink(u@),
        Span::Emoji { id, name, animated } => SpanM::Emoji { id: id@, name: name@, animated },
        Span::Mention(k) => SpanM::Mention(mention_m(k)),
        Span::Timestamp { unix, style } => SpanM::Timestamp { unix, style },
    }
}

pub open spec fn spans_m(v: Seq<Span>) -> Seq<SpanM>
    decreases v,
{
    if v.len() == 0 {
        Seq::empty()
    } else {
        spans_m(v.drop_last()).push(span_m(v.last()))
    }
}

pub open spec fn items_m(v: Seq<Vec<Span>>) -> Seq<Seq<SpanM>>
    decreases v,
{
    if v.len() == 0 {
        Seq::empty()
    } else {
        items_m(v.drop_last()).push(spans_m(v.last()@))
    }
}

pub open spec fn block_m(b: Block) -> BlockM
    decreases b,
{
    match b {
        Block::Para(v) => BlockM::Para(spans_m(v@)),
        Block::Quote { wide, blocks } => BlockM::Quote { wide, blocks: blocks_m(blocks@) },
        Block::Code { lang, body } => BlockM::Code { lang: lang@, body: body@ },
        Block::Heading(level, v) => BlockM::Heading(level, spans_m(v@)),
        Block::Subtext(v) => BlockM::Subtext(spans_m(v@)),
        Block::List { ordered, items } => BlockM::List { ordered, items: items_m(items@) },
    }
}

pub open spec fn blocks_m(v: Seq<Block>) -> Seq<BlockM>
    decreases v,
{
    if v.len() == 0 {
        Seq::empty()
    } else {
        blocks_m(v.drop_last()).push(block_m(v.last()))
    }
}

} // verus!
