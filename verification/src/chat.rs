//! Chat components: the formatted text that the protocol carries as JSON.
use vstd::prelude::*;

verus! {

/// A piece of chat: formatting alone, formatted text, or several pieces.
#[derive(Debug)]
pub enum ChatComponent {
    Normal(BasicChatComponent),
    String(ChatStringComponent),
    Multi(Vec<ChatComponent>),
}

/// Formatted text.
#[derive(Debug)]
pub struct ChatStringComponent {
    pub text: String,
    pub basic: BasicChatComponent,
}

/// The formatting of a piece of chat, and the pieces that follow it.
#[derive(Debug)]
pub struct BasicChatComponent {
    pub bold: bool,
    pub italic: bool,
    pub underlined: bool,
    pub strikethrough: bool,
    pub obfuscated: bool,
    pub font: Option<String>,
    pub color: Option<ChatColor>,
    pub insertion: Option<String>,
    pub click_event: Option<ChatClickEvent>,
    pub hover_event: Option<Box<ChatHoverEvent>>,
    pub extra: Vec<ChatComponent>,
}

/// The color of chat text: a named color, a short code, a web color, or the
/// default (`reset`).
#[derive(Clone, Copy, Debug, PartialEq, Eq, Structural)]
pub enum ChatColor {
    Named(ChatColorNamed),
    ShortCode(ChatShortCode),
    Web(ChatColorWeb),
    Reset,
}

/// Colors by their short codes.
#[derive(Clone, Copy, Debug, PartialEq, Eq, Structural)]
pub enum ChatShortCode {
    White,
    Green,
    Black,
}

/// The named colors of chat.
#[derive(Clone, Copy, Debug, PartialEq, Eq, Structural)]
pub enum ChatColorNamed {
    Black,
    DarkBlue,
    DarkGren,
    DarkCyan,
    DarkRed,
    Purple,
    Gold,
    Gray,
    DarkGray,
    Blue,
    Green,
    Aqua,
    Red,
    LightPurple,
    Yellow,
    White,
}

/// A color given by its RGB value.
#[derive(Clone, Copy, Debug, PartialEq, Eq, Structural)]
pub enum ChatColorWeb {
    Hex(u32),
}

/// What clicking on chat text does.
#[derive(Clone, Debug)]
pub enum ChatClickEvent {
    OpenUrl(String),
    RunCommand(String),
    SuggestCommand(String),
    ChangePage(u8),
    CopyToClipboard(String),
}

/// What hovering over chat text shows.
#[derive(Debug)]
pub enum ChatHoverEvent {
    ShowText(ChatComponent),
}

/// No formatting at all: nothing set, no color, nothing following.
pub open spec fn is_plain(b: BasicChatComponent) -> bool {
    &&& !b.bold && !b.italic && !b.underlined && !b.strikethrough && !b.obfuscated
    &&& b.font is None && b.color is None && b.insertion is None
    &&& b.click_event is None && b.hover_event is None
    &&& b.extra@.len() == 0
}

impl Default for BasicChatComponent {
    fn default() -> (r: Self)
        ensures
            is_plain(r),
    {
        BasicChatComponent {
            bold: false,
            italic: false,
            underlined: false,
            strikethrough: false,
            obfuscated: false,
            font: None,
            color: None,
            insertion: None,
            click_event: None,
            hover_event: None,
            extra: Vec::new(),
        }
    }
}

impl Default for ChatStringComponent {
    fn default() -> (r: Self)
        ensures
            r.text@ == Seq::<char>::empty(),
            is_plain(r.basic),
    {
        ChatStringComponent { text: String::new(), basic: BasicChatComponent::default() }
    }
}

impl Default for ChatComponent {
    /// Empty, plain text.
    fn default() -> (r: Self)
        ensures
            r matches ChatComponent::String(s) && s.text@ == Seq::<char>::empty() && is_plain(s.basic),
    {
        ChatComponent::String(ChatStringComponent::default())
    }
}

impl Default for ChatColor {
    fn default() -> (r: Self)
        ensures
            r == ChatColor::Reset,
    {
        ChatColor::Reset
    }
}

impl ChatComponent {
    /// Plain text.
    pub fn text(text: String) -> (r: ChatComponent)
        ensures
            r matches ChatComponent::String(s) && s.text == text && is_plain(s.basic),
    {
        ChatComponent::String(ChatStringComponent { text, basic: BasicChatComponent::default() })
    }
}

} // verus!
