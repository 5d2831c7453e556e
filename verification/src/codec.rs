//! The registries that a client is sent on joining, in the shape of their JSON
//! description: the chat types and the armor trim patterns, and the sounds and
//! particles of biomes.
use vstd::prelude::*;

verus! {

#[derive(Debug, Clone, Default)]
pub struct ChatTypeRegistry {
    pub type_field: String,
    pub value: Vec<ChatTypeObject>,
}

#[derive(Debug, Clone, Default)]
pub struct ChatTypeObject {
    pub element: ChatType,
    pub id: i64,
    pub name: String,
}

#[derive(Debug, Clone, Default)]
pub struct ChatType {
    pub chat: Chat,
    pub narration: Narration,
}

#[derive(Debug, Clone, Default)]
pub struct Chat {
    pub parameters: Vec<String>,
    pub translation_key: String,
    pub style: Option<ChatStyle>,
}

#[derive(Debug, Clone, Default)]
pub struct ChatStyle {
    pub color: String,
    pub italic: i64,
}

#[derive(Debug, Clone, Default)]
pub struct Narration {
    pub parameters: Vec<String>,
    pub translation_key: String,
}

#[derive(Debug, Clone, Default)]
pub struct Description {
    pub color: String,
    pub translate: String,
}

#[derive(Debug, Clone, Default)]
pub struct OverrideArmorMaterials {
    pub netherite: Option<String>,
    pub iron: Option<String>,
    pub gold: Option<String>,
    pub diamond: Option<String>,
}

#[derive(Debug, Clone, Default)]
pub struct TrimPatternRegistry {
    pub type_field: String,
    pub value: Vec<TrimPatternObject>,
}

#[derive(Debug, Clone, Default)]
pub struct TrimPatternObject {
    pub element: TrimPattern,
    pub id: i64,
    pub name: String,
}

#[derive(Debug, Clone, Default)]
pub struct TrimPattern {
    pub asset_id: String,
    pub description: Description2,
    pub template_item: String,
}

#[derive(Debug, Clone, Default)]
pub struct Description2 {
    pub translate: String,
}

#[derive(Debug, Clone, Default)]
pub struct MoodSound {
    pub block_search_extent: i64,
    pub offset: i64,
    pub sound: String,
    pub tick_delay: i64,
}

#[derive(Debug, Clone, Default)]
pub struct Music {
    pub max_delay: i64,
    pub min_delay: i64,
    pub replace_current_music: i64,
    pub sound: String,
}

#[derive(Debug, Clone, Default)]
pub struct ParticleOptions {
    pub type_field: String,
}

} // verus!
