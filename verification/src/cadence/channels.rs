use vstd::prelude::*;
use super::error::CadenceError;
use crate::text::str_eq;

verus! {

/// What a job produces for a delivery channel.
#[derive(Debug, Clone)]
pub enum Artifact {
    /// A markdown file, by its path.
    MarkdownFile(String),
    PlainText(String),
    Bytes { data: Vec<u8>, mime: String },
}

/// The plain-value picture of an artifact.
pub enum ArtifactModel {
    MarkdownFile(Seq<char>),
    PlainText(Seq<char>),
    Bytes { data: Seq<u8>, mime: Seq<char> },
}

impl View for Artifact {
    type V = ArtifactModel;

    open spec fn view(&self) -> ArtifactModel {
        match self {
            Artifact::MarkdownFile(p) => ArtifactModel::MarkdownFile(p@),
            Artifact::PlainText(t) => ArtifactModel::PlainText(t@),
            Artifact::Bytes { data, mime } => ArtifactModel::Bytes { data: data@, mime: mime@ },
        }
    }
}

/// Somewhere artifacts can be delivered to. Delivering itself is done by
/// the program around the library; here a channel says its name and what it takes.
pub trait DeliveryChannel {
    spec fn channel_name(&self) -> Seq<char>;

    spec fn accepts_spec(&self, a: ArtifactModel) -> bool;

    /// The name the channel is registered under.
    fn name(&self) -> (r: &str)
        ensures
            r@ == self.channel_name(),
    ;

    /// Whether the channel can deliver this artifact.
    fn accepts(&self, artifact: &Artifact) -> (b: bool)
        ensures
            b == self.accepts_spec(artifact@),
    ;
}

/// Whether some channel of `cs` is called `name`.
pub open spec fn has_channel<C: DeliveryChannel>(cs: Seq<C>, name: Seq<char>) -> bool {
    exists|i: int| 0 <= i < cs.len() && (#[trigger] cs[i]).channel_name() == name
}

/// The channel of `cs` called `name`: the first one, if any.
pub open spec fn lookup_channel<C: DeliveryChannel>(cs: Seq<C>, name: Seq<char>) -> Option<C>
    decreases cs.len(),
{
    if cs.len() == 0 {
        None
    } else if cs[0].channel_name() == name {
        Some(cs[0])
    } else {
        lookup_channel(cs.drop_first(), name)
    }
}

/// The delivery channels, by name.
pub struct ChannelRegistry<C> {
    channels: Vec<C>,
}

impl<C: DeliveryChannel> ChannelRegistry<C> {
    /// The channels, in the order they were registered.
    pub closed spec fn entries(&self) -> Seq<C> {
        self.channels@
    }

    pub fn new() -> (r: Self)
        ensures
            r.entries().len() == 0,
    {
        ChannelRegistry { channels: Vec::new() }
    }

    /// Whether a channel is registered under `name`.
    pub fn contains(&self, name: &str) -> (b: bool)
        ensures
            b == has_channel(self.entries(), name@),
    {
        let mut i: usize = 0;
        while i < self.channels.len()
            invariant
                i <= self.channels@.len(),
                forall|j: int| 0 <= j < i ==> (#[trigger] self.channels@[j]).channel_name() != name@,
            decreases self.channels@.len() - i,
        {
            if str_eq(self.channels[i].name(), name) {
                return true;
            }
            i = i + 1;
        }
        false
    }

    /// Registers `channel` under its name, which no channel may have yet.
    pub fn register(&mut self, channel: C)
        requires
            !has_channel(old(self).entries(), channel.channel_name()),
        ensures
            final(self).entries() == old(self).entries().push(channel),
    {
        self.channels.push(channel);
    }

    /// The channel registered under `name`.
    pub fn get(&self, name: &str) -> (r: Option<&C>)
        ensures
            match lookup_channel(self.entries(), name@) {
                Some(c) => r matches Some(x) && *x == c,
                None => r is None,
            },
    {
        let ghost cs = self.channels@;
        let mut i: usize = 0;
        assert(cs.skip(0) =~= cs);
        while i < self.channels.len()
            invariant
                cs == self.channels@,
                i <= cs.len(),
                lookup_channel(cs, name@) == lookup_channel(cs.skip(i as int), name@),
            decreases cs.len() - i,
        {
            let ghost rest = cs.skip(i as int);
            assert(rest[0] == cs[i as int]);
            assert(rest.drop_first() =~= cs.skip(i + 1));
            if str_eq(self.channels[i].name(), name) {
                return Some(&self.channels[i]);
            }
            i = i + 1;
        }
        None
    }

    /// The channel that `artifact` goes to under `name`: none registered
    /// gives `NoChannel`, one that does not take it gives `ArtifactNotAccepted`.
    pub fn deliver_target(&self, name: &str, artifact: &Artifact) -> (r: Result<&C, CadenceError>)
        ensures
            match lookup_channel(self.entries(), name@) {
                None => r == Err::<&C, CadenceError>(CadenceError::NoChannel),
                Some(c) => if c.accepts_spec(artifact@) {
                    r matches Ok(x) && *x == c
                } else {
                    r == Err::<&C, CadenceError>(CadenceError::ArtifactNotAccepted)
                },
            },
    {
        match self.get(name) {
            None => Err(CadenceError::NoChannel),
            Some(c) => {
                if c.accepts(artifact) {
                    Ok(c)
                } else {
                    Err(CadenceError::ArtifactNotAccepted)
                }
            },
        }
    }
}

/// A new channel is found under its own name, and leaves every other
/// lookup as it was.
pub proof fn lemma_channel_after_register<C: DeliveryChannel>(cs: Seq<C>, c: C, other: Seq<char>)
    requires
        !has_channel(cs, c.channel_name()),
    ensures
        lookup_channel(cs.push(c), c.channel_name()) == Some(c),
        other != c.channel_name() ==> lookup_channel(cs.push(c), other) == lookup_channel(cs, other),
    decreases cs.len(),
{
    let pushed = cs.push(c);
    if cs.len() == 0 {
        assert(pushed[0] == c);
        assert(pushed.drop_first() =~= Seq::<C>::empty());
    } else {
        assert(pushed[0] == cs[0]);
        assert(pushed.drop_first() =~= cs.drop_first().push(c));
        assert forall|i: int| 0 <= i < cs.drop_first().len() implies (#[trigger] cs.drop_first()[i]).channel_name() != c.channel_name() by {
            assert(cs.drop_first()[i] == cs[i + 1]);
        }
        lemma_channel_after_register(cs.drop_first(), c, other);
    }
}

} // verus!
