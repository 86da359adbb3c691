//! The manifest of the derived pairs: one entry for every pair, with both
//! sides spelled out.

use crate::emoji::{skin_variations_view, Emoji, EmojiPair, EmojiPairView, EmojiView};
use vstd::prelude::*;

verus! {

/// One side of a pair in the manifest.
#[derive(Debug)]
pub struct JsonEmoji {
    pub codepoint: String,
    pub name: String,
    pub short_name: String,
    pub category: String,
    pub subcategory: String,
    pub sort_order: u16,
    /// Variant key and the codepoint of the variant, in the order of the
    /// catalog entry.
    pub skin_variations: Vec<(String, String)>,
}

/// One pair in the manifest.
#[derive(Debug)]
pub struct JsonEmojiPair {
    pub name: String,
    pub src: String,
    pub sort_order: u16,
    pub d: String,
    pub base: JsonEmoji,
    pub pair: JsonEmoji,
}

/// What a [`JsonEmojiPair`] holds, as plain values.
pub struct JsonEmojiPairView {
    pub name: Seq<char>,
    pub src: Seq<char>,
    pub sort_order: u16,
    pub d: Seq<char>,
    pub base: EmojiView,
    pub pair: EmojiView,
}

/// Key and codepoint of each variation, in order.
pub open spec fn variation_views(v: Seq<(String, String)>) -> Seq<(Seq<char>, Seq<char>)> {
    Seq::new(v.len(), |i: int| (v[i].0@, v[i].1@))
}

impl View for JsonEmoji {
    type V = EmojiView;

    open spec fn view(&self) -> EmojiView {
        EmojiView {
            codepoint: self.codepoint@,
            name: self.name@,
            short_name: self.short_name@,
            category: self.category@,
            subcategory: self.subcategory@,
            sort_order: self.sort_order,
            skin_variations: variation_views(self.skin_variations@),
        }
    }
}

impl View for JsonEmojiPair {
    type V = JsonEmojiPairView;

    open spec fn view(&self) -> JsonEmojiPairView {
        JsonEmojiPairView {
            name: self.name@,
            src: self.src@,
            sort_order: self.sort_order,
            d: self.d@,
            base: self.base@,
            pair: self.pair@,
        }
    }
}

/// The manifest entry of a pair: its name, the location of its image as
/// `src`, its sort order and date token, and both sides as they are.
pub open spec fn manifest_entry(pair: EmojiPairView) -> JsonEmojiPairView {
    JsonEmojiPairView {
        name: pair.name,
        src: pair.image_url,
        sort_order: pair.sort_order,
        d: pair.d,
        base: pair.base,
        pair: pair.pair,
    }
}

/// One side of a pair as it stands in the manifest.
pub fn json_emoji(emoji: &Emoji) -> (r: JsonEmoji)
    ensures
        r@ == emoji@,
{
    let mut variations: Vec<(String, String)> = Vec::new();
    let mut i: usize = 0;
    while i < emoji.skin_variations.len()
        invariant
            i <= emoji.skin_variations@.len(),
            variations@.len() == i,
            forall|j: int|
                0 <= j < i ==> (#[trigger] variations@[j]).0@ == emoji.skin_variations@[j].0@
                    && variations@[j].1@ == emoji.skin_variations@[j].1@,
        decreases emoji.skin_variations@.len() - i,
    {
        let entry = &emoji.skin_variations[i];
        variations.push((entry.0.clone(), entry.1.codepoint.clone()));
        i = i + 1;
    }
    proof {
        assert(variation_views(variations@) =~= skin_variations_view(emoji.skin_variations@));
    }
    JsonEmoji {
        codepoint: emoji.codepoint.clone(),
        name: emoji.name.clone(),
        short_name: emoji.short_name.clone(),
        category: emoji.category.clone(),
        subcategory: emoji.subcategory.clone(),
        sort_order: emoji.sort_order,
        skin_variations: variations,
    }
}

/// The manifest entry of `pair`.
pub fn json_pair(pair: &EmojiPair) -> (r: JsonEmojiPair)
    ensures
        r@ == manifest_entry(pair@),
{
    JsonEmojiPair {
        name: pair.name.clone(),
        src: pair.image_url.clone(),
        sort_order: pair.sort_order,
        d: pair.d.clone(),
        base: json_emoji(&pair.base),
        pair: json_emoji(&pair.pair),
    }
}

/// The manifest of the pairs: the entry of every pair, in the order of the
/// pairs.
pub fn json(pairs: &Vec<EmojiPair>) -> (r: Vec<JsonEmojiPair>)
    ensures
        r@.len() == pairs@.len(),
        forall|i: int| 0 <= i < pairs@.len() ==> (#[trigger] r@[i])@ == manifest_entry(pairs@[i]@),
{
    let mut out: Vec<JsonEmojiPair> = Vec::new();
    let mut i: usize = 0;
    while i < pairs.len()
        invariant
            i <= pairs@.len(),
            out@.len() == i,
            forall|j: int| 0 <= j < i ==> (#[trigger] out@[j])@ == manifest_entry(pairs@[j]@),
        decreases pairs@.len() - i,
    {
        out.push(json_pair(&pairs[i]));
        i = i + 1;
    }
    out
}

} // verus!
