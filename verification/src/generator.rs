//! A self-contained status line generator: emits the header once, then
//! renders every section's command string as its block. It runs no
//! commands — the caller drives it and paces the lines.

use vstd::prelude::*;

use crate::config::{Config, Section};
use crate::json::{header_json, status_json, status_to_json};
use crate::protocol::{plain_block, Block, BlockV, Header, Status};

verus! {

/// The blocks the generator renders: one per section, showing the
/// section's command string itself.
pub open spec fn generator_blocks(sections: Seq<Section>) -> Seq<BlockV> {
    sections.map_values(|s: Section| plain_block(s.command@, "command"@, s.name@))
}

/// Renders status lines directly from the configuration.
pub struct StatusGenerator {
    pub interval_ms: u64,
    pub header_sent: bool,
    pub config: Config,
    pub header: Header,
}

impl StatusGenerator {
    /// A fresh generator over the given configuration, paced at one
    /// line per second.
    pub fn new(config: Config) -> (r: Self)
        ensures
            r.interval_ms == 1000u64,
            !r.header_sent,
            r.config == config,
            r.header.version == 1u8,
            !r.header.click_events,
    {
        StatusGenerator { interval_ms: 1000, header_sent: false, config, header: Header::new() }
    }

    /// The next line of the stream: the header first, then one snapshot
    /// of all sections per call. The caller sleeps `interval_ms`
    /// between snapshot lines.
    pub fn next_line(&mut self) -> (r: String)
        ensures
            final(self).config == old(self).config,
            final(self).interval_ms == old(self).interval_ms,
            final(self).header == old(self).header,
            final(self).header_sent,
            !old(self).header_sent ==> r@ == header_json(old(self).header) + "\n["@,
            old(self).header_sent ==> r@ == status_json(
                generator_blocks(old(self).config.sections@),
            ),
    {
        if !self.header_sent {
            self.header_sent = true;
            let mut line = crate::json::header_to_json(&self.header);
            line.append("\n[");
            return line;
        }
        let n = self.config.sections.len();
        let mut blocks: Vec<Block> = Vec::new();
        let mut i: usize = 0;
        while i < n
            invariant
                i <= n,
                n == self.config.sections@.len(),
                self == old(self),
                blocks@.len() == i,
                forall|j: int|
                    0 <= j < i ==> (#[trigger] blocks@[j])@ == plain_block(
                        self.config.sections@[j].command@,
                        "command"@,
                        self.config.sections@[j].name@,
                    ),
            decreases n - i,
        {
            let s = &self.config.sections[i];
            blocks.push(Block::new(s.command.as_str(), "command", s.name.as_str()));
            i += 1;
        }
        let status = Status { blocks };
        proof {
            assert forall|j: int| 0 <= j < n implies #[trigger] status@[j] == generator_blocks(
                self.config.sections@,
            )[j] by {
                assert(status@[j] == status.blocks@[j]@);
                assert(generator_blocks(self.config.sections@)[j] == plain_block(
                    self.config.sections@[j].command@,
                    "command"@,
                    self.config.sections@[j].name@,
                ));
            }
            assert(status@ =~= generator_blocks(self.config.sections@));
        }
        status_to_json(&status)
    }
}

} // verus!
