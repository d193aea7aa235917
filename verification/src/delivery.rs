use vstd::prelude::*;
use crate::cadence::channels::{Artifact, ArtifactModel, DeliveryChannel};
use crate::konan::print_ops::{KonanPrintChannel, print_accepts};
use crate::titans_tower::channel::{DiscordChannel, discord_accepts};

verus! {

/// The channels this bot delivers to: Discord text channels and the printer.
pub enum AnyChannel {
    Discord(DiscordChannel),
    Print(KonanPrintChannel),
}

impl DeliveryChannel for AnyChannel {
    open spec fn channel_name(&self) -> Seq<char> {
        match self {
            AnyChannel::Discord(c) => c.channel_name(),
            AnyChannel::Print(p) => p.channel_name(),
        }
    }

    open spec fn accepts_spec(&self, a: ArtifactModel) -> bool {
        match self {
            AnyChannel::Discord(_) => discord_accepts(a),
            AnyChannel::Print(_) => print_accepts(a),
        }
    }

    fn name(&self) -> (r: &str) {
        match self {
            AnyChannel::Discord(c) => c.name(),
            AnyChannel::Print(p) => p.name(),
        }
    }

    fn accepts(&self, artifact: &Artifact) -> (b: bool) {
        match self {
            AnyChannel::Discord(c) => c.accepts(artifact),
            AnyChannel::Print(p) => p.accepts(artifact),
        }
    }
}

} // verus!
