use vstd::prelude::*;
use vstd::std_specs::iter::IteratorSpec;
use crate::cadence::channels::{Artifact, ArtifactModel, DeliveryChannel};
use crate::cadence::error::CadenceError;
use crate::text::{strings_view, char_utf8_width, lemma_utf8_len, lemma_utf8_len_push, push_char, str_eq, utf8_len, utf8_width};

verus! {

broadcast use vstd::string::group_string_axioms;

/// Discord refuses messages longer than this many bytes.
pub const DISCORD_MAX_MESSAGE_LEN: usize = 2000;

/// The MIME type of an artifact that holds an embed as JSON.
pub const DISCORD_EMBED_MIME: &'static str = "application/x-discord-embed+json";

/// An embed: optional title, description and colour, and its fields.
#[derive(Debug, Clone)]
pub struct DiscordEmbedPayload {
    pub title: Option<String>,
    pub description: Option<String>,
    pub color: Option<u32>,
    pub fields: Vec<DiscordEmbedField>,
}

/// One `name: value` field of an embed.
#[derive(Debug, Clone)]
pub struct DiscordEmbedField {
    pub name: String,
    pub value: String,
    pub inline: bool,
}

impl Default for DiscordEmbedPayload {
    fn default() -> (p: Self)
        ensures
            p.title is None,
            p.description is None,
            p.color is None,
            p.fields@.len() == 0,
    {
        DiscordEmbedPayload { title: None, description: None, color: None, fields: Vec::new() }
    }
}

/// A Discord text channel that artifacts can be delivered to.
pub struct DiscordChannel {
    pub name: String,
    pub channel_id: u64,
}

/// What sending an artifact to a Discord channel takes.
pub enum DiscordDelivery {
    /// Plain messages, sent one after the other.
    Messages(Vec<String>),
    /// One message with the embed that these JSON bytes describe.
    Embed(Vec<u8>),
}

/// A channel takes plain text, and bytes that carry an embed.
pub open spec fn discord_accepts(a: ArtifactModel) -> bool {
    match a {
        ArtifactModel::PlainText(_) => true,
        ArtifactModel::Bytes { mime, .. } => mime == DISCORD_EMBED_MIME@,
        ArtifactModel::MarkdownFile(_) => false,
    }
}

impl DeliveryChannel for DiscordChannel {
    open spec fn channel_name(&self) -> Seq<char> {
        self.name@
    }

    open spec fn accepts_spec(&self, a: ArtifactModel) -> bool {
        discord_accepts(a)
    }

    fn name(&self) -> (r: &str) {
        self.name.as_str()
    }

    fn accepts(&self, artifact: &Artifact) -> (b: bool) {
        match artifact {
            Artifact::PlainText(_) => true,
            Artifact::Bytes { mime, .. } => str_eq(mime.as_str(), DISCORD_EMBED_MIME),
            Artifact::MarkdownFile(_) => false,
        }
    }
}

impl DiscordChannel {
    pub fn new(name: String, channel_id: u64) -> (c: Self)
        ensures
            c.name == name,
            c.channel_id == channel_id,
    {
        DiscordChannel { name, channel_id }
    }

    /// How an artifact is delivered: plain text in pieces of at most
    /// `DISCORD_MAX_MESSAGE_LEN` bytes, embed bytes as one embed; anything
    /// else is refused.
    pub fn delivery(&self, artifact: Artifact) -> (r: Result<DiscordDelivery, CadenceError>)
        requires
            artifact matches Artifact::PlainText(t) ==> utf8_len(t@) <= usize::MAX,
        ensures
            match artifact@ {
                ArtifactModel::PlainText(t) => r matches Ok(DiscordDelivery::Messages(v))
                    && strings_view(v@) == chunks_of(t, DISCORD_MAX_MESSAGE_LEN as nat),
                ArtifactModel::Bytes { data, mime } => if mime == DISCORD_EMBED_MIME@ {
                    r matches Ok(DiscordDelivery::Embed(d)) && d@ == data
                } else {
                    r == Err::<DiscordDelivery, CadenceError>(CadenceError::ArtifactNotAccepted)
                },
                ArtifactModel::MarkdownFile(_) => r == Err::<DiscordDelivery, CadenceError>(
                    CadenceError::ArtifactNotAccepted,
                ),
            },
    {
        match artifact {
            Artifact::PlainText(text) => Ok(
                DiscordDelivery::Messages(chunk_message(text.as_str(), DISCORD_MAX_MESSAGE_LEN)),
            ),
            Artifact::Bytes { data, mime } => {
                if str_eq(mime.as_str(), DISCORD_EMBED_MIME) {
                    Ok(DiscordDelivery::Embed(data))
                } else {
                    Err(CadenceError::ArtifactNotAccepted)
                }
            },
            Artifact::MarkdownFile(_) => Err(CadenceError::ArtifactNotAccepted),
        }
    }
}

/// Chunks collected so far, the chunk being filled and its byte length.
pub struct ChunkState {
    pub chunks: Seq<Seq<char>>,
    pub current: Seq<char>,
    pub current_len: nat,
}

/// Adding one character: when it would push the current chunk past
/// `max_len` bytes, the current chunk is closed first.
pub open spec fn chunk_step(st: ChunkState, c: char, max_len: nat) -> ChunkState {
    if st.current_len + utf8_width(c) > max_len {
        ChunkState { chunks: st.chunks.push(st.current), current: seq![c], current_len: utf8_width(c) }
    } else {
        ChunkState {
            chunks: st.chunks,
            current: st.current.push(c),
            current_len: st.current_len + utf8_width(c),
        }
    }
}

pub open spec fn chunk_run(text: Seq<char>, max_len: nat) -> ChunkState
    decreases text.len(),
{
    if text.len() == 0 {
        ChunkState { chunks: seq![], current: seq![], current_len: 0 }
    } else {
        chunk_step(chunk_run(text.drop_last(), max_len), text.last(), max_len)
    }
}

/// The pieces a message is sent in: the whole text when it fits in `max_len`
/// bytes, otherwise consecutive pieces of at most `max_len` bytes each, each
/// as long as the next character still fits.
pub open spec fn chunks_of(text: Seq<char>, max_len: nat) -> Seq<Seq<char>> {
    if utf8_len(text) <= max_len {
        seq![text]
    } else {
        let st = chunk_run(text, max_len);
        if st.current.len() > 0 {
            st.chunks.push(st.current)
        } else {
            st.chunks
        }
    }
}

/// Splits `text` into pieces of at most `max_len` bytes, cutting only between characters.
pub fn chunk_message(text: &str, max_len: usize) -> (chunks: Vec<String>)
    requires
        utf8_len(text@) <= usize::MAX,
    ensures
        strings_view(chunks@) == chunks_of(text@, max_len as nat),
{
    proof {
        lemma_utf8_len(text@);
    }
    if text.len() <= max_len {
        let whole = text.to_string();
        let v = vec![whole];
        assert(strings_view(v@) =~= seq![text@]);
        return v;
    }
    let mut chunks: Vec<String> = Vec::new();
    let mut current = String::new();
    let mut current_len: usize = 0;
    let mut iter = text.chars();
    let ghost t = text@;
    let ghost mut i: int = 0;
    assert(strings_view(chunks@) =~= Seq::<Seq<char>>::empty());
    assert(t.take(0) =~= Seq::<char>::empty());
    loop
        invariant
            0 <= i <= t.len(),
            t == text@,
            iter.remaining() == t.skip(i),
            iter.obeys_prophetic_iter_laws(),
            chunk_run(t.take(i), max_len as nat) == (ChunkState {
                chunks: strings_view(chunks@),
                current: current@,
                current_len: current_len as nat,
            }),
            current_len <= max_len || current_len <= 4,
        ensures
            chunk_run(t, max_len as nat) == (ChunkState {
                chunks: strings_view(chunks@),
                current: current@,
                current_len: current_len as nat,
            }),
        decreases t.len() - i,
    {
        match iter.next() {
            Some(ch) => {
                let w = char_utf8_width(ch);
                let ghost before = strings_view(chunks@);
                if w > max_len || current_len > max_len - w {
                    let mut closed = String::new();
                    std::mem::swap(&mut closed, &mut current);
                    chunks.push(closed);
                    current_len = 0;
                    assert(strings_view(chunks@) =~= before.push(closed@));
                }
                push_char(&mut current, ch);
                current_len = current_len + w;
                proof {
                    assert(t.skip(i)[0] == t[i]);
                    assert(t.take(i + 1).drop_last() =~= t.take(i));
                    assert(t.take(i + 1).last() == t[i]);
                    assert(current@ =~= chunk_step(chunk_run(t.take(i), max_len as nat), t[i], max_len as nat).current);
                    i = i + 1;
                }
            },
            None => {
                proof {
                    assert(t.take(i) =~= t) by {
                        if i < t.len() {
                            assert(t.skip(i).len() > 0);
                        }
                    }
                }
                break;
            },
        }
    }
    if !current.as_str().is_empty() {
        let ghost before = strings_view(chunks@);
        chunks.push(current);
        assert(strings_view(chunks@) =~= before.push(chunk_run(t, max_len as nat).current));
    }
    chunks
}

/// The pieces joined back together.
pub open spec fn joined(pieces: Seq<Seq<char>>) -> Seq<char>
    decreases pieces.len(),
{
    if pieces.len() == 0 {
        seq![]
    } else {
        joined(pieces.drop_last()) + pieces.last()
    }
}

proof fn lemma_chunk_run(text: Seq<char>, max_len: nat)
    ensures
        joined(chunk_run(text, max_len).chunks) + chunk_run(text, max_len).current == text,
        chunk_run(text, max_len).current_len == utf8_len(chunk_run(text, max_len).current),
        max_len >= 4 ==> forall|k: int|
            0 <= k < chunk_run(text, max_len).chunks.len() ==> {
                &&& utf8_len(#[trigger] chunk_run(text, max_len).chunks[k]) <= max_len
                &&& chunk_run(text, max_len).chunks[k].len() > 0
            },
        max_len >= 4 ==> chunk_run(text, max_len).current_len <= max_len,
        max_len >= 4 && text.len() > 0 ==> chunk_run(text, max_len).current.len() > 0,
    decreases text.len(),
{
    if text.len() > 0 {
        let prev = chunk_run(text.drop_last(), max_len);
        lemma_chunk_run(text.drop_last(), max_len);
        let c = text.last();
        lemma_utf8_len_push(prev.current, c);
        lemma_utf8_len_push(Seq::<char>::empty(), c);
        assert(Seq::<char>::empty().push(c) =~= seq![c]);
        let next = chunk_run(text, max_len);
        if prev.current_len + utf8_width(c) > max_len {
            assert(next.chunks.drop_last() =~= prev.chunks);
            assert(joined(next.chunks) =~= joined(prev.chunks) + prev.current);
            assert(joined(next.chunks) + next.current =~= text.drop_last().push(c));
            if max_len >= 4 {
                if prev.current.len() == 0 {
                    assert(utf8_len(prev.current) == 0);
                }
            }
        } else {
            assert(joined(next.chunks) + next.current =~= text.drop_last().push(c));
        }
        assert(text.drop_last().push(c) =~= text);
    }
}

/// The pieces of a message, joined back together, give the message.
pub proof fn lemma_chunks_join(text: Seq<char>, max_len: nat)
    ensures
        joined(chunks_of(text, max_len)) == text,
{
    lemma_chunk_run(text, max_len);
    let st = chunk_run(text, max_len);
    if utf8_len(text) <= max_len {
        let one = seq![text];
        assert(one.drop_last() =~= Seq::<Seq<char>>::empty());
        assert(joined(one.drop_last()) == Seq::<char>::empty());
        assert(one.last() == text);
        assert(joined(one) =~= text);
    } else if st.current.len() > 0 {
        assert(st.chunks.push(st.current).drop_last() =~= st.chunks);
    } else {
        assert(st.current =~= Seq::<char>::empty());
        assert(joined(st.chunks) + st.current =~= joined(st.chunks));
    }
}

/// When every character fits in a piece (`max_len >= 4`), every piece is
/// non-empty and at most `max_len` bytes long.
pub proof fn lemma_chunks_fit(text: Seq<char>, max_len: nat)
    requires
        max_len >= 4,
        text.len() > 0,
    ensures
        forall|k: int|
            0 <= k < chunks_of(text, max_len).len() ==> {
                &&& utf8_len(#[trigger] chunks_of(text, max_len)[k]) <= max_len
                &&& chunks_of(text, max_len)[k].len() > 0
            },
{
    lemma_chunk_run(text, max_len);
}

} // verus!
