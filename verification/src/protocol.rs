//! The swaybar status-line protocol: the header record emitted once at
//! startup, and the block records that make up every snapshot.

use vstd::prelude::*;

verus! {

/// The protocol header, emitted exactly once before any snapshot.
#[derive(Debug, Clone)]
pub struct Header {
    pub version: u8,
    pub click_events: bool,
    pub cont_signal: i32,
    pub stop_signal: i32,
}

/// Relies on `signal_hook::consts::SIGCONT`: the runtime continuation
/// signal number of this platform. The value is platform-dependent, so
/// nothing is promised of it.
#[verifier::external_body]
fn runtime_cont_signal() -> i32 {
    signal_hook::consts::SIGCONT
}

/// Relies on `signal_hook::consts::SIGSTOP`: the runtime stop signal
/// number of this platform. The value is platform-dependent, so nothing
/// is promised of it.
#[verifier::external_body]
fn runtime_stop_signal() -> i32 {
    signal_hook::consts::SIGSTOP
}

impl Header {
    /// The header this engine speaks: protocol version 1, click events
    /// disabled, and the platform's continuation and stop signal numbers.
    pub fn new() -> (r: Self)
        ensures
            r.version == 1u8,
            !r.click_events,
    {
        Header {
            version: 1,
            click_events: false,
            cont_signal: runtime_cont_signal(),
            stop_signal: runtime_stop_signal(),
        }
    }
}

impl Default for Header {
    fn default() -> (r: Self)
        ensures
            r.version == 1u8,
            !r.click_events,
    {
        Header::new()
    }
}

/// A block's minimum width: either a pixel count or the width of a
/// reference string.
#[derive(Debug, Clone, PartialEq)]
pub enum MinWidth {
    Pixels(u32),
    WidthOf(String),
}

/// Text alignment inside a block.
#[derive(Debug, Clone, Copy, PartialEq, Eq, Structural)]
pub enum Align {
    Left,
    Right,
    Center,
}

/// How a block's text is parsed by the host: pango markup or plain text.
#[derive(Debug, Clone, Copy, PartialEq, Eq, Structural)]
pub enum Markup {
    Pango,
    Plain,
}

/// The rendered display unit for one section in the current snapshot.
#[derive(Debug, Clone, PartialEq)]
pub struct Block {
    pub full_text: String,
    pub short_text: Option<String>,
    pub color: Option<String>,
    pub background: Option<String>,
    pub border: Option<String>,
    pub border_top: Option<u32>,
    pub border_bottom: Option<u32>,
    pub border_left: Option<u32>,
    pub border_right: Option<u32>,
    pub min_width: MinWidth,
    pub align: Option<Align>,
    pub name: String,
    pub instance: String,
    pub urgent: bool,
    pub separator: bool,
    pub separator_block_width: Option<u32>,
    pub markup: Markup,
}

/// The full ordered set of all sections' current blocks.
#[derive(Debug, Clone, PartialEq)]
pub struct Status {
    pub blocks: Vec<Block>,
}

/// The mathematical model of a [`MinWidth`].
#[verifier::ext_equal]
pub enum MinWidthV {
    Pixels(u32),
    WidthOf(Seq<char>),
}

/// The mathematical model of a [`Block`]: every string as its character
/// sequence, every other field as itself.
#[verifier::ext_equal]
pub struct BlockV {
    pub full_text: Seq<char>,
    pub short_text: Option<Seq<char>>,
    pub color: Option<Seq<char>>,
    pub background: Option<Seq<char>>,
    pub border: Option<Seq<char>>,
    pub border_top: Option<u32>,
    pub border_bottom: Option<u32>,
    pub border_left: Option<u32>,
    pub border_right: Option<u32>,
    pub min_width: MinWidthV,
    pub align: Option<Align>,
    pub name: Seq<char>,
    pub instance: Seq<char>,
    pub urgent: bool,
    pub separator: bool,
    pub separator_block_width: Option<u32>,
    pub markup: Markup,
}

pub open spec fn view_opt_string(s: Option<String>) -> Option<Seq<char>> {
    match s {
        Option::Some(v) => Option::Some(v@),
        Option::None => Option::None,
    }
}

impl View for MinWidth {
    type V = MinWidthV;

    open spec fn view(&self) -> MinWidthV {
        match self {
            MinWidth::Pixels(n) => MinWidthV::Pixels(*n),
            MinWidth::WidthOf(s) => MinWidthV::WidthOf(s@),
        }
    }
}

impl View for Block {
    type V = BlockV;

    open spec fn view(&self) -> BlockV {
        BlockV {
            full_text: self.full_text@,
            short_text: view_opt_string(self.short_text),
            color: view_opt_string(self.color),
            background: view_opt_string(self.background),
            border: view_opt_string(self.border),
            border_top: self.border_top,
            border_bottom: self.border_bottom,
            border_left: self.border_left,
            border_right: self.border_right,
            min_width: self.min_width@,
            align: self.align,
            name: self.name@,
            instance: self.instance@,
            urgent: self.urgent,
            separator: self.separator,
            separator_block_width: self.separator_block_width,
            markup: self.markup,
        }
    }
}

impl View for Status {
    type V = Seq<BlockV>;

    open spec fn view(&self) -> Seq<BlockV> {
        self.blocks@.map_values(|b: Block| b@)
    }
}

/// The model of the block a section publishes when its command printed
/// `full_text`: minimum width taken from the text itself, never urgent,
/// with a separator, no markup, and no cosmetic fields set.
pub open spec fn plain_block(full_text: Seq<char>, name: Seq<char>, instance: Seq<char>) -> BlockV {
    BlockV {
        full_text: full_text,
        short_text: Option::None,
        color: Option::None,
        background: Option::None,
        border: Option::None,
        border_top: Option::None,
        border_bottom: Option::None,
        border_left: Option::None,
        border_right: Option::None,
        min_width: MinWidthV::WidthOf(full_text),
        align: Option::None,
        name: name,
        instance: instance,
        urgent: false,
        separator: true,
        separator_block_width: Option::None,
        markup: Markup::Plain,
    }
}

impl Block {
    /// Build the block for one section's current output: `full_text` is the
    /// command's trimmed output, `name` and `instance` identify the section.
    pub fn new(full_text: &str, name: &str, instance: &str) -> (r: Self)
        ensures
            r@ == plain_block(full_text@, name@, instance@),
    {
        Block {
            full_text: full_text.to_owned(),
            short_text: None,
            color: None,
            background: None,
            border: None,
            border_top: None,
            border_bottom: None,
            border_left: None,
            border_right: None,
            min_width: MinWidth::WidthOf(full_text.to_owned()),
            align: None,
            name: name.to_owned(),
            instance: instance.to_owned(),
            urgent: false,
            separator: true,
            separator_block_width: None,
            markup: Markup::Plain,
        }
    }
}

} // verus!
