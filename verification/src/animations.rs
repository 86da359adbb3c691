//! Animated emoji: their short names, file names and remote locations.

use crate::batch::{Job, JobView};
use crate::order::reverse;
use crate::text::{
    has_char, lemma_common_suffix, lemma_joined_injective, push_char, string_views,
};
use vstd::prelude::*;

verus! {

/// One entry of the animated emoji set.
#[derive(Debug)]
pub struct AnimatedEmoji {
    pub codepoint: String,
    /// Tags such as `:smile:`; the first one names the emoji.
    pub tags: Vec<String>,
}

/// What an [`AnimatedEmoji`] holds, as plain values.
pub struct AnimatedEmojiView {
    pub codepoint: Seq<char>,
    pub tags: Seq<Seq<char>>,
}

impl View for AnimatedEmoji {
    type V = AnimatedEmojiView;

    open spec fn view(&self) -> AnimatedEmojiView {
        AnimatedEmojiView { codepoint: self.codepoint@, tags: string_views(self.tags@) }
    }
}

/// A tag without its first and its last character, the colons round the
/// name. A tag of fewer than two characters leaves nothing.
pub open spec fn strip_delimiters(tag: Seq<char>) -> Seq<char> {
    if tag.len() < 2 {
        Seq::empty()
    } else {
        tag.subrange(1, tag.len() - 1)
    }
}

/// The short name of an animated emoji: its first tag without the
/// delimiters, or its codepoint where it has no tag.
pub open spec fn animated_short_name(emoji: AnimatedEmojiView) -> Seq<char> {
    if emoji.tags.len() == 0 {
        emoji.codepoint
    } else {
        strip_delimiters(emoji.tags[0])
    }
}

/// The local file name of an animated emoji: short name and codepoint
/// joined by `.`, with the extension `gif`.
pub open spec fn animated_filename(short_name: Seq<char>, codepoint: Seq<char>) -> Seq<char> {
    short_name + seq!['.'] + codepoint + ".gif"@
}

/// The remote location of the image of an animated emoji.
pub open spec fn animated_image_url(codepoint: Seq<char>) -> Seq<char> {
    "https://fonts.gstatic.com/s/e/notoemoji/latest/"@ + codepoint + "/512.gif"@
}

/// File names of animated emoji tell them apart: where no `.` occurs in the
/// short names, two file names are equal only if short name and codepoint
/// are.
pub proof fn lemma_animated_filename_injective(
    short_name1: Seq<char>,
    codepoint1: Seq<char>,
    short_name2: Seq<char>,
    codepoint2: Seq<char>,
)
    requires
        !has_char(short_name1, '.'),
        !has_char(short_name2, '.'),
        animated_filename(short_name1, codepoint1) == animated_filename(short_name2, codepoint2),
    ensures
        short_name1 == short_name2,
        codepoint1 == codepoint2,
{
    let ending1 = codepoint1 + ".gif"@;
    let ending2 = codepoint2 + ".gif"@;
    assert(animated_filename(short_name1, codepoint1) =~= short_name1 + seq!['.'] + ending1);
    assert(animated_filename(short_name2, codepoint2) =~= short_name2 + seq!['.'] + ending2);
    lemma_joined_injective(short_name1, ending1, short_name2, ending2, '.');
    lemma_common_suffix(codepoint1, codepoint2, ".gif"@);
}

impl AnimatedEmoji {
    /// The short name: the first tag without the colons round it, or the
    /// codepoint where there is no tag.
    pub fn short_name(&self) -> (r: String)
        ensures
            r@ == animated_short_name(self@),
    {
        if self.tags.len() == 0 {
            self.codepoint.clone()
        } else {
            let tag = self.tags[0].as_str();
            let n = tag.unicode_len();
            if n < 2 {
                String::new()
            } else {
                String::from_str(tag.substring_char(1, n - 1))
            }
        }
    }

    /// The local file name.
    pub fn filename(&self) -> (r: String)
        ensures
            r@ == animated_filename(animated_short_name(self@), self.codepoint@),
    {
        let mut out = self.short_name();
        push_char(&mut out, '.');
        out.append(self.codepoint.as_str());
        out.append(".gif");
        out
    }

    /// The remote location of the image.
    pub fn image_url(&self) -> (r: String)
        ensures
            r@ == animated_image_url(self.codepoint@),
    {
        let mut out = String::from_str("https://fonts.gstatic.com/s/e/notoemoji/latest/");
        out.append(self.codepoint.as_str());
        out.append("/512.gif");
        out
    }
}

/// The views of a list of animated emoji, in order.
pub open spec fn animated_views(emoji: Seq<AnimatedEmoji>) -> Seq<AnimatedEmojiView> {
    Seq::new(emoji.len(), |i: int| emoji[i]@)
}

/// The entries whose short name is `name`, in their order; all entries where
/// no name is asked for.
pub open spec fn named(emoji: Seq<AnimatedEmojiView>, name: Option<Seq<char>>) -> Seq<
    AnimatedEmojiView,
>
    decreases emoji.len(),
{
    if emoji.len() == 0 {
        Seq::empty()
    } else if name is None || animated_short_name(emoji.last()) == name->0 {
        named(emoji.drop_last(), name).push(emoji.last())
    } else {
        named(emoji.drop_last(), name)
    }
}

/// Narrows the set to the entries with the short name `name`, where one is
/// given.
pub fn select(emoji: Vec<AnimatedEmoji>, name: &Option<String>) -> (r: Vec<AnimatedEmoji>)
    ensures
        animated_views(r@) == named(
            animated_views(emoji@),
            match name {
                Some(n) => Some(n@),
                None => None,
            },
        ),
{
    let ghost all = animated_views(emoji@);
    let ghost wanted: Option<Seq<char>> = match name {
        Some(n) => Some(n@),
        None => None,
    };
    let ghost total = emoji@.len();
    let mut rest = reverse(emoji);
    let mut out: Vec<AnimatedEmoji> = Vec::new();
    proof {
        assert(animated_views(out@) =~= named(all.take(0), wanted));
    }
    while rest.len() > 0
        invariant
            rest@.len() <= total,
            total == all.len(),
            forall|i: int| 0 <= i < rest@.len() ==> (#[trigger] rest@[i])@ == all[total - 1 - i],
            wanted == (match name {
                Some(n) => Some(n@),
                None => None,
            }),
            animated_views(out@) == named(all.take(total - rest@.len()), wanted),
        decreases rest@.len(),
    {
        let ghost k = total - rest@.len();
        let ghost before = animated_views(out@);
        let ghost last = rest@[rest@.len() - 1];
        match rest.pop() {
            Some(entry) => {
                proof {
                    assert(entry@ == all[k]);
                    assert(all.take(k + 1).drop_last() =~= all.take(k));
                    assert(all.take(k + 1).last() == all[k]);
                }
                let keep = match name {
                    Some(n) => entry.short_name() == *n,
                    None => true,
                };
                if keep {
                    out.push(entry);
                    proof {
                        assert(animated_views(out@) =~= before.push(all[k]));
                    }
                }
            },
            None => {},
        }
    }
    proof {
        assert(all.take(total as int) =~= all);
    }
    out
}

/// The job that fetches the image of an animated emoji and resizes it to a
/// square of `size` pixels.
pub open spec fn animated_job(emoji: AnimatedEmojiView, size: u32) -> JobView {
    JobView {
        filename: animated_filename(animated_short_name(emoji), emoji.codepoint),
        url: animated_image_url(emoji.codepoint),
        resize: Some(size),
    }
}

impl AnimatedEmoji {
    /// The job that fetches the image of this emoji and resizes it to a
    /// square of `size` pixels.
    pub fn job(&self, size: u32) -> (r: Job)
        ensures
            r@ == animated_job(self@, size),
    {
        Job { filename: self.filename(), url: self.image_url(), resize: Some(size) }
    }
}

/// One job for every entry of the set, in order.
pub fn jobs(emoji: &Vec<AnimatedEmoji>, size: u32) -> (r: Vec<Job>)
    ensures
        r@.len() == emoji@.len(),
        forall|i: int|
            0 <= i < emoji@.len() ==> (#[trigger] r@[i])@ == animated_job(emoji@[i]@, size),
{
    let mut out: Vec<Job> = Vec::new();
    let mut i: usize = 0;
    while i < emoji.len()
        invariant
            i <= emoji@.len(),
            out@.len() == i,
            forall|j: int| 0 <= j < i ==> (#[trigger] out@[j])@ == animated_job(emoji@[j]@, size),
        decreases emoji@.len() - i,
    {
        out.push(emoji[i].job(size));
        i = i + 1;
    }
    out
}

} // verus!
