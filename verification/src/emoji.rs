//! The emoji catalog and the combination pairs derived from it.
//!
//! A combination pair is built from a raw record `date/codepoint/codepoint`
//! and two catalog entries. Its name, remote image location and local file
//! name are functions of those alone, stated here as spec functions and
//! computed by the executable functions beside them.

use crate::batch::{Job, JobView};
use crate::order::{lemma_stable_sort_mapped, stable_sort, stable_sort_of, Ranked};
use crate::text::{
    after, before, decimal, has_char, lemma_common_suffix, lemma_decimal_injective,
    lemma_decimal_lacks, lemma_joined_injective, lemma_replace_char_absent,
    lemma_replace_char_concat, lemma_replace_char_injective, lowercase_of, parse_hex,
    parse_hex_i64, push_char, push_decimal, push_signed_decimal, replace_char, replace_char_in,
    same_text, signed_decimal, split_all, split_first, split_on, string_views, to_lowercase, trim,
    trimmed,
};
use vstd::hash_map::StringHashMap;
use vstd::prelude::*;

verus! {

// ---------------------------------------------------------------------------
// Catalog records
// ---------------------------------------------------------------------------

/// A skin-tone variant of an emoji: its codepoint only.
#[derive(Clone, Debug)]
pub struct EmojiSkinVariation {
    pub codepoint: String,
}

/// One entry of the base emoji table.
#[derive(Clone, Debug)]
pub struct Emoji {
    pub codepoint: String,
    pub name: String,
    pub short_name: String,
    pub category: String,
    pub subcategory: String,
    pub sort_order: u16,
    /// Variant key and variant, in the order of the source table. No key
    /// occurs twice in a table entry.
    pub skin_variations: Vec<(String, EmojiSkinVariation)>,
}

/// What an [`Emoji`] holds, as plain values.
pub struct EmojiView {
    pub codepoint: Seq<char>,
    pub name: Seq<char>,
    pub short_name: Seq<char>,
    pub category: Seq<char>,
    pub subcategory: Seq<char>,
    pub sort_order: u16,
    pub skin_variations: Seq<(Seq<char>, Seq<char>)>,
}

impl EmojiView {
    /// Whether no key occurs twice among the skin variations.
    pub open spec fn distinct_variations(self) -> bool {
        forall|i: int, j: int|
            0 <= i < j < self.skin_variations.len() ==> self.skin_variations[i].0
                != self.skin_variations[j].0
    }
}

impl View for EmojiSkinVariation {
    type V = Seq<char>;

    open spec fn view(&self) -> Seq<char> {
        self.codepoint@
    }
}

/// Key and variant codepoint of each skin variation, in order.
pub open spec fn skin_variations_view(v: Seq<(String, EmojiSkinVariation)>) -> Seq<
    (Seq<char>, Seq<char>),
> {
    Seq::new(v.len(), |i: int| (v[i].0@, v[i].1@))
}

impl View for Emoji {
    type V = EmojiView;

    open spec fn view(&self) -> EmojiView {
        EmojiView {
            codepoint: self.codepoint@,
            name: self.name@,
            short_name: self.short_name@,
            category: self.category@,
            subcategory: self.subcategory@,
            sort_order: self.sort_order,
            skin_variations: skin_variations_view(self.skin_variations@),
        }
    }
}

impl EmojiSkinVariation {
    /// A copy of this variant.
    pub fn duplicate(&self) -> (r: EmojiSkinVariation)
        ensures
            r@ == self@,
    {
        EmojiSkinVariation { codepoint: self.codepoint.clone() }
    }
}

impl Emoji {
    /// A copy of this entry, field by field.
    pub fn duplicate(&self) -> (r: Emoji)
        ensures
            r@ == self@,
    {
        let mut variations: Vec<(String, EmojiSkinVariation)> = Vec::new();
        let mut i: usize = 0;
        while i < self.skin_variations.len()
            invariant
                i <= self.skin_variations@.len(),
                variations@.len() == i,
                forall|j: int|
                    0 <= j < i ==> (#[trigger] variations@[j]).0@ == self.skin_variations@[j].0@
                        && variations@[j].1@ == self.skin_variations@[j].1@,
            decreases self.skin_variations@.len() - i,
        {
            let entry = &self.skin_variations[i];
            variations.push((entry.0.clone(), entry.1.duplicate()));
            i = i + 1;
        }
        proof {
            assert(skin_variations_view(variations@) =~= skin_variations_view(
                self.skin_variations@,
            ));
        }
        Emoji {
            codepoint: self.codepoint.clone(),
            name: self.name.clone(),
            short_name: self.short_name.clone(),
            category: self.category.clone(),
            subcategory: self.subcategory.clone(),
            sort_order: self.sort_order,
            skin_variations: variations,
        }
    }
}

// ---------------------------------------------------------------------------
// Derived identifiers
// ---------------------------------------------------------------------------

/// Offset added to a date token's number to give the publication date.
pub const DATE_BASE: i64 = 20200000;

/// First publication date from which the remote side names the copyright
/// and registered-trademark symbols without their leading zeros.
pub const CUTOVER_DATE: i64 = 20220500;

/// The publication date that a date token stands for: its number in base 16
/// plus [`DATE_BASE`]. `None` where the token is no such number or the date
/// leaves the signed 64-bit range.
pub open spec fn date_of_token(d: Seq<char>) -> Option<int> {
    match parse_hex(d) {
        Some(v) => if v + DATE_BASE <= i64::MAX {
            Some(v + DATE_BASE)
        } else {
            None
        },
        None => None,
    }
}

/// A codepoint read from a pair record, as the catalog spells it: the two
/// legacy spellings get their leading zeros back, anything else stays.
/// `lowered` is the lowercased raw codepoint.
pub open spec fn canonical_codepoint(lowered: Seq<char>) -> Seq<char> {
    if lowered == "a9-fe0f"@ {
        "00a9-fe0f"@
    } else if lowered == "ae-fe0f"@ {
        "00ae-fe0f"@
    } else {
        lowered
    }
}

/// A codepoint as it stands in a remote image location for a pair published
/// on `date`: every `-` becomes `-u`, and from [`CUTOVER_DATE`] on the
/// copyright and registered-trademark symbols lose their leading zeros.
pub open spec fn url_codepoint(date: int, codepoint: Seq<char>) -> Seq<char> {
    let replaced = replace_char(codepoint, '-', seq!['-', 'u']);
    if date >= CUTOVER_DATE && replaced == "00a9-ufe0f"@ {
        "a9-ufe0f"@
    } else if date >= CUTOVER_DATE && replaced == "00ae-ufe0f"@ {
        "ae-ufe0f"@
    } else {
        replaced
    }
}

/// Display name of a pair: the two short names joined by `_`.
pub open spec fn pair_name(base_short: Seq<char>, pair_short: Seq<char>) -> Seq<char> {
    base_short + seq!['_'] + pair_short
}

/// Remote image location of the pair published on `date` with the given
/// codepoints.
pub open spec fn pair_image_url(
    date: int,
    base_codepoint: Seq<char>,
    pair_codepoint: Seq<char>,
) -> Seq<char> {
    let c1 = url_codepoint(date, base_codepoint);
    let c2 = url_codepoint(date, pair_codepoint);
    "https://www.gstatic.com/android/keyboard/emojikitchen/"@ + signed_decimal(date) + "/u"@ + c1
        + "/u"@ + c1 + "_u"@ + c2 + ".png"@
}

/// Local file name of a pair: sort order, date token, the two codepoints and
/// the two short names, joined by `.`, with the extension `png`.
pub open spec fn pair_filename(
    sort_order: u16,
    d: Seq<char>,
    base_codepoint: Seq<char>,
    pair_codepoint: Seq<char>,
    base_short: Seq<char>,
    pair_short: Seq<char>,
) -> Seq<char> {
    decimal(sort_order as nat) + seq!['.'] + d + seq!['.'] + base_codepoint + seq!['.']
        + pair_codepoint + seq!['.'] + base_short + seq!['.'] + pair_short + ".png"@
}

/// Sort order of a pair: the sum of the two sort orders, held at 65535 where
/// the sum would leave the 16-bit range.
pub open spec fn combined_sort_order(base: u16, pair: u16) -> u16 {
    if base + pair > u16::MAX {
        u16::MAX
    } else {
        (base + pair) as u16
    }
}

/// What `-` turns into `-u` makes of a codepoint `xxxx-fe0f`.
proof fn lemma_variation_codepoint(head: Seq<char>)
    requires
        !has_char(head, '-'),
    ensures
        replace_char(head + seq!['-', 'f', 'e', '0', 'f'], '-', seq!['-', 'u']) == head
            + seq!['-', 'u', 'f', 'e', '0', 'f'],
{
    let to = seq!['-', 'u'];
    let hyphen = seq!['-'];
    let tail = seq!['f', 'e', '0', 'f'];
    assert(head + seq!['-', 'f', 'e', '0', 'f'] =~= head + hyphen + tail);
    lemma_replace_char_concat(head + hyphen, tail, '-', to);
    lemma_replace_char_concat(head, hyphen, '-', to);
    lemma_replace_char_absent(head, '-', to);
    lemma_replace_char_absent(tail, '-', to);
    assert(hyphen.drop_last() =~= Seq::<char>::empty());
    assert(hyphen.last() == '-');
    assert(replace_char(hyphen.drop_last(), '-', to) =~= Seq::<char>::empty());
    assert(replace_char(hyphen, '-', to) =~= to);
    assert(head + to + tail =~= head + seq!['-', 'u', 'f', 'e', '0', 'f']);
}

/// The rewrite of the remote spelling, by date and codepoint. Before the
/// cutover date no codepoint is rewritten: each only has its `-` turned into
/// `-u`. From the cutover date on the same holds of every codepoint but
/// `00a9-fe0f` and `00ae-fe0f`, and these two lose their leading zeros. So
/// the result differs from the plain substitution exactly for these two
/// codepoints from that date on.
pub proof fn lemma_url_codepoint_cutover(date: int, codepoint: Seq<char>)
    ensures
        date < CUTOVER_DATE ==> url_codepoint(date, codepoint) == replace_char(
            codepoint,
            '-',
            seq!['-', 'u'],
        ),
        date >= CUTOVER_DATE ==> url_codepoint(date, codepoint) == (if codepoint
            == "00a9-fe0f"@ {
            "a9-ufe0f"@
        } else if codepoint == "00ae-fe0f"@ {
            "ae-ufe0f"@
        } else {
            replace_char(codepoint, '-', seq!['-', 'u'])
        }),
        url_codepoint(date, codepoint) != replace_char(codepoint, '-', seq!['-', 'u']) <==> date
            >= CUTOVER_DATE && (codepoint == "00a9-fe0f"@ || codepoint == "00ae-fe0f"@),
{
    reveal_strlit("00a9-fe0f");
    reveal_strlit("00ae-fe0f");
    reveal_strlit("00a9-ufe0f");
    reveal_strlit("00ae-ufe0f");
    reveal_strlit("a9-ufe0f");
    reveal_strlit("ae-ufe0f");
    let to = seq!['-', 'u'];
    let copyright = seq!['0', '0', 'a', '9'];
    let registered = seq!['0', '0', 'a', 'e'];
    lemma_variation_codepoint(copyright);
    lemma_variation_codepoint(registered);
    assert("00a9-fe0f"@ =~= copyright + seq!['-', 'f', 'e', '0', 'f']);
    assert("00ae-fe0f"@ =~= registered + seq!['-', 'f', 'e', '0', 'f']);
    assert("00a9-ufe0f"@ =~= copyright + seq!['-', 'u', 'f', 'e', '0', 'f']);
    assert("00ae-ufe0f"@ =~= registered + seq!['-', 'u', 'f', 'e', '0', 'f']);
    let replaced = replace_char(codepoint, '-', to);
    if replaced == "00a9-ufe0f"@ {
        lemma_replace_char_injective(codepoint, "00a9-fe0f"@, '-', 'u');
    }
    if replaced == "00ae-ufe0f"@ {
        lemma_replace_char_injective(codepoint, "00ae-fe0f"@, '-', 'u');
    }
    assert("a9-ufe0f"@.len() != "00a9-ufe0f"@.len());
    assert("ae-ufe0f"@.len() != "00ae-ufe0f"@.len());
    assert("00a9-ufe0f"@[3] != "00ae-ufe0f"@[3]);
}

/// File names of pairs tell the pairs apart: where no `.` occurs in the date
/// tokens, the codepoints and the base short names, two file names are equal
/// only if sort order, date token, both codepoints and both short names are.
pub proof fn lemma_pair_filename_injective(
    sort_order1: u16,
    d1: Seq<char>,
    base_codepoint1: Seq<char>,
    pair_codepoint1: Seq<char>,
    base_short1: Seq<char>,
    pair_short1: Seq<char>,
    sort_order2: u16,
    d2: Seq<char>,
    base_codepoint2: Seq<char>,
    pair_codepoint2: Seq<char>,
    base_short2: Seq<char>,
    pair_short2: Seq<char>,
)
    requires
        !has_char(d1, '.') && !has_char(d2, '.'),
        !has_char(base_codepoint1, '.') && !has_char(base_codepoint2, '.'),
        !has_char(pair_codepoint1, '.') && !has_char(pair_codepoint2, '.'),
        !has_char(base_short1, '.') && !has_char(base_short2, '.'),
        pair_filename(
            sort_order1,
            d1,
            base_codepoint1,
            pair_codepoint1,
            base_short1,
            pair_short1,
        ) == pair_filename(
            sort_order2,
            d2,
            base_codepoint2,
            pair_codepoint2,
            base_short2,
            pair_short2,
        ),
    ensures
        sort_order1 == sort_order2,
        d1 == d2,
        base_codepoint1 == base_codepoint2,
        pair_codepoint1 == pair_codepoint2,
        base_short1 == base_short2,
        pair_short1 == pair_short2,
{
    let dot = seq!['.'];
    let order1 = decimal(sort_order1 as nat);
    let order2 = decimal(sort_order2 as nat);
    let ending1 = pair_short1 + ".png"@;
    let ending2 = pair_short2 + ".png"@;
    let shorts1 = base_short1 + dot + ending1;
    let shorts2 = base_short2 + dot + ending2;
    let pairs1 = pair_codepoint1 + dot + shorts1;
    let pairs2 = pair_codepoint2 + dot + shorts2;
    let bases1 = base_codepoint1 + dot + pairs1;
    let bases2 = base_codepoint2 + dot + pairs2;
    let dated1 = d1 + dot + bases1;
    let dated2 = d2 + dot + bases2;
    assert(pair_filename(
        sort_order1,
        d1,
        base_codepoint1,
        pair_codepoint1,
        base_short1,
        pair_short1,
    ) =~= order1 + dot + dated1);
    assert(pair_filename(
        sort_order2,
        d2,
        base_codepoint2,
        pair_codepoint2,
        base_short2,
        pair_short2,
    ) =~= order2 + dot + dated2);
    lemma_decimal_lacks(sort_order1 as nat, '.');
    lemma_decimal_lacks(sort_order2 as nat, '.');
    lemma_joined_injective(order1, dated1, order2, dated2, '.');
    lemma_decimal_injective(sort_order1 as nat, sort_order2 as nat);
    lemma_joined_injective(d1, bases1, d2, bases2, '.');
    lemma_joined_injective(base_codepoint1, pairs1, base_codepoint2, pairs2, '.');
    lemma_joined_injective(pair_codepoint1, shorts1, pair_codepoint2, shorts2, '.');
    lemma_joined_injective(base_short1, ending1, base_short2, ending2, '.');
    lemma_common_suffix(pair_short1, pair_short2, ".png"@);
}

// ---------------------------------------------------------------------------
// Pairs
// ---------------------------------------------------------------------------

/// One combination of two emoji, with its derived identifiers.
#[derive(Debug)]
pub struct EmojiPair {
    pub d: String,
    pub base: Emoji,
    pub pair: Emoji,
    pub name: String,
    pub image_url: String,
    pub filename: String,
    pub sort_order: u16,
}

/// What an [`EmojiPair`] holds, as plain values.
pub struct EmojiPairView {
    pub d: Seq<char>,
    pub base: EmojiView,
    pub pair: EmojiView,
    pub name: Seq<char>,
    pub image_url: Seq<char>,
    pub filename: Seq<char>,
    pub sort_order: u16,
}

impl View for EmojiPair {
    type V = EmojiPairView;

    open spec fn view(&self) -> EmojiPairView {
        EmojiPairView {
            d: self.d@,
            base: self.base@,
            pair: self.pair@,
            name: self.name@,
            image_url: self.image_url@,
            filename: self.filename@,
            sort_order: self.sort_order,
        }
    }
}

/// The pair that the date token `d` and the two catalog entries determine.
/// Meaningful where `date_of_token(d)` is `Some`.
pub open spec fn pair_of(d: Seq<char>, base: EmojiView, pair: EmojiView) -> EmojiPairView {
    let sort_order = combined_sort_order(base.sort_order, pair.sort_order);
    EmojiPairView {
        d,
        base,
        pair,
        name: pair_name(base.short_name, pair.short_name),
        image_url: pair_image_url(date_of_token(d).unwrap(), base.codepoint, pair.codepoint),
        filename: pair_filename(
            sort_order,
            d,
            base.codepoint,
            pair.codepoint,
            base.short_name,
            pair.short_name,
        ),
        sort_order,
    }
}

/// Reads a date token: the publication date it stands for, if any.
pub fn parse_date_token(d: &str) -> (r: Option<i64>)
    ensures
        match r {
            Some(date) => date_of_token(d@) == Some(date as int),
            None => date_of_token(d@) is None,
        },
{
    match parse_hex_i64(d) {
        Some(v) => v.checked_add(DATE_BASE),
        None => None,
    }
}

/// Gives a lowercased codepoint of a pair record the spelling of the
/// catalog.
pub fn restore_legacy_codepoint(lowered: String) -> (r: String)
    ensures
        r@ == canonical_codepoint(lowered@),
{
    if same_text(lowered.as_str(), "a9-fe0f") {
        String::from_str("00a9-fe0f")
    } else if same_text(lowered.as_str(), "ae-fe0f") {
        String::from_str("00ae-fe0f")
    } else {
        lowered
    }
}

impl EmojiPair {
    /// The display name of the pair of `base` and `pair`.
    pub fn generate_name(base: &Emoji, pair: &Emoji) -> (r: String)
        ensures
            r@ == pair_name(base.short_name@, pair.short_name@),
    {
        let mut out = base.short_name.clone();
        push_char(&mut out, '_');
        out.append(pair.short_name.as_str());
        out
    }

    /// The spelling of `codepoint` in the remote image location of a pair
    /// published on `date`.
    pub fn normalize_image_url_codepoint(date: i64, codepoint: &str) -> (r: String)
        ensures
            r@ == url_codepoint(date as int, codepoint@),
            date < CUTOVER_DATE ==> r@ == replace_char(codepoint@, '-', seq!['-', 'u']),
    {
        let replaced = replace_char_in(codepoint, '-', "-u");
        proof {
            reveal_strlit("-u");
            assert("-u"@ =~= seq!['-', 'u']);
        }
        if date >= CUTOVER_DATE && same_text(replaced.as_str(), "00a9-ufe0f") {
            String::from_str("a9-ufe0f")
        } else if date >= CUTOVER_DATE && same_text(replaced.as_str(), "00ae-ufe0f") {
            String::from_str("ae-ufe0f")
        } else {
            replaced
        }
    }

    /// The remote image location of the pair of `base` and `pair` with the
    /// date token `d`.
    pub fn generate_image_url(d: &str, base: &Emoji, pair: &Emoji) -> (r: String)
        requires
            date_of_token(d@) is Some,
        ensures
            r@ == pair_image_url(date_of_token(d@).unwrap(), base.codepoint@, pair.codepoint@),
    {
        let date = match parse_date_token(d) {
            Some(date) => date,
            None => 0,
        };
        let c1 = EmojiPair::normalize_image_url_codepoint(date, base.codepoint.as_str());
        let c2 = EmojiPair::normalize_image_url_codepoint(date, pair.codepoint.as_str());
        let mut out = String::from_str("https://www.gstatic.com/android/keyboard/emojikitchen/");
        push_signed_decimal(&mut out, date);
        out.append("/u");
        out.append(c1.as_str());
        out.append("/u");
        out.append(c1.as_str());
        out.append("_u");
        out.append(c2.as_str());
        out.append(".png");
        out
    }

    /// The local file name of the pair of `base` and `pair` with the date
    /// token `d` and the sort order `sort_order`.
    pub fn generate_filename(d: &str, base: &Emoji, pair: &Emoji, sort_order: u16) -> (r: String)
        ensures
            r@ == pair_filename(
                sort_order,
                d@,
                base.codepoint@,
                pair.codepoint@,
                base.short_name@,
                pair.short_name@,
            ),
    {
        let mut out = String::new();
        push_decimal(&mut out, sort_order as u64);
        push_char(&mut out, '.');
        out.append(d);
        push_char(&mut out, '.');
        out.append(base.codepoint.as_str());
        push_char(&mut out, '.');
        out.append(pair.codepoint.as_str());
        push_char(&mut out, '.');
        out.append(base.short_name.as_str());
        push_char(&mut out, '.');
        out.append(pair.short_name.as_str());
        out.append(".png");
        proof {
            assert(out@ =~= pair_filename(
                sort_order,
                d@,
                base.codepoint@,
                pair.codepoint@,
                base.short_name@,
                pair.short_name@,
            ));
        }
        out
    }

    /// The pair of `base` and `pair` with the date token `d`. The pair holds
    /// copies of the two entries.
    pub fn new(d: &str, base: &Emoji, pair: &Emoji) -> (r: Self)
        requires
            date_of_token(d@) is Some,
        ensures
            r@ == pair_of(d@, base@, pair@),
    {
        let sort_order = base.sort_order.saturating_add(pair.sort_order);
        EmojiPair {
            d: String::from_str(d),
            base: base.duplicate(),
            pair: pair.duplicate(),
            name: EmojiPair::generate_name(base, pair),
            image_url: EmojiPair::generate_image_url(d, base, pair),
            filename: EmojiPair::generate_filename(d, base, pair, sort_order),
            sort_order,
        }
    }

    /// The spelling that the catalog has for a codepoint of a pair record.
    pub fn normalize_codepoint(codepoint: &str) -> (r: String)
        ensures
            r@ == canonical_codepoint(lowercase_of(codepoint@)),
    {
        restore_legacy_codepoint(to_lowercase(codepoint))
    }
}

// ---------------------------------------------------------------------------
// Catalog
// ---------------------------------------------------------------------------

/// The base emoji table, keyed by codepoint. Every entry stands under its
/// own codepoint, so no codepoint occurs twice.
pub struct EmojiCatalog {
    entries: StringHashMap<Emoji>,
}

impl View for EmojiCatalog {
    type V = Map<Seq<char>, EmojiView>;

    closed spec fn view(&self) -> Map<Seq<char>, EmojiView> {
        Map::new(
            |k: Seq<char>| self.entries@.contains_key(k),
            |k: Seq<char>| self.entries@[k]@,
        )
    }
}

/// Whether every entry of `m` stands under its own codepoint.
pub open spec fn keyed_by_codepoint(m: Map<Seq<char>, EmojiView>) -> bool {
    forall|k: Seq<char>| #[trigger] m.contains_key(k) ==> m[k].codepoint == k
}

impl EmojiCatalog {
    /// A catalog without entries.
    pub fn new() -> (r: Self)
        ensures
            r@ == Map::<Seq<char>, EmojiView>::empty(),
            keyed_by_codepoint(r@),
    {
        let r = EmojiCatalog { entries: StringHashMap::new() };
        proof {
            assert(r@ =~= Map::<Seq<char>, EmojiView>::empty());
        }
        r
    }

    /// Puts `emoji` under its codepoint, in place of an entry that stood
    /// there before.
    pub fn insert(&mut self, emoji: Emoji)
        ensures
            final(self)@ == old(self)@.insert(emoji.codepoint@, emoji@),
            keyed_by_codepoint(old(self)@) ==> keyed_by_codepoint(final(self)@),
    {
        let key = emoji.codepoint.clone();
        self.entries.insert(key, emoji);
        proof {
            assert(self@ =~= old(self)@.insert(emoji.codepoint@, emoji@));
        }
    }

    /// The entry with the given codepoint, if there is one.
    pub fn get(&self, codepoint: &str) -> (r: Option<&Emoji>)
        ensures
            match r {
                Some(e) => self@.contains_key(codepoint@) && e@ == self@[codepoint@],
                None => !self@.contains_key(codepoint@),
            },
    {
        self.entries.get(codepoint)
    }

    /// Whether the catalog has an entry with the given codepoint.
    pub fn contains_key(&self, codepoint: &str) -> (r: bool)
        ensures
            r == self@.contains_key(codepoint@),
    {
        self.entries.contains_key(codepoint)
    }

    /// Number of entries.
    pub fn len(&self) -> (r: usize)
        ensures
            r == self@.len(),
    {
        proof {
            assert(self@.dom() =~= self.entries@.dom());
        }
        self.entries.len()
    }
}

/// A raw table entry as the catalog holds it: codepoint and short name in
/// lowercase, and so the codepoint of every skin variation.
pub open spec fn normalized_emoji(e: EmojiView) -> EmojiView {
    EmojiView {
        codepoint: lowercase_of(e.codepoint),
        name: e.name,
        short_name: lowercase_of(e.short_name),
        category: e.category,
        subcategory: e.subcategory,
        sort_order: e.sort_order,
        skin_variations: Seq::new(
            e.skin_variations.len(),
            |i: int| (e.skin_variations[i].0, lowercase_of(e.skin_variations[i].1)),
        ),
    }
}

/// Normalizing an entry leaves the keys of its skin variations as they are,
/// so none occurs twice afterwards that did not before.
pub proof fn lemma_normalized_keeps_keys(e: EmojiView)
    requires
        e.distinct_variations(),
    ensures
        normalized_emoji(e).distinct_variations(),
{
}

/// The catalog that a table of raw entries gives: each entry normalized and
/// put under its codepoint, a later entry in place of an earlier one with
/// the same codepoint.
pub open spec fn catalog_of(records: Seq<EmojiView>) -> Map<Seq<char>, EmojiView>
    decreases records.len(),
{
    if records.len() == 0 {
        Map::empty()
    } else {
        let e = normalized_emoji(records.last());
        catalog_of(records.drop_last()).insert(e.codepoint, e)
    }
}

/// Every entry of a catalog built from a table stands under its own
/// codepoint: the codepoint is the key, and no two entries share one.
pub proof fn lemma_catalog_keyed_by_codepoint(records: Seq<EmojiView>)
    ensures
        keyed_by_codepoint(catalog_of(records)),
    decreases records.len(),
{
    if records.len() > 0 {
        lemma_catalog_keyed_by_codepoint(records.drop_last());
    }
}

/// The views of a table of entries, in order.
pub open spec fn emoji_views(records: Seq<Emoji>) -> Seq<EmojiView> {
    Seq::new(records.len(), |i: int| records[i]@)
}

impl Emoji {
    /// This entry as the catalog holds it.
    pub fn normalized(&self) -> (r: Emoji)
        ensures
            r@ == normalized_emoji(self@),
    {
        let mut variations: Vec<(String, EmojiSkinVariation)> = Vec::new();
        let mut i: usize = 0;
        while i < self.skin_variations.len()
            invariant
                i <= self.skin_variations@.len(),
                variations@.len() == i,
                forall|j: int|
                    0 <= j < i ==> (#[trigger] variations@[j]).0@ == self.skin_variations@[j].0@
                        && variations@[j].1@ == lowercase_of(self.skin_variations@[j].1@),
            decreases self.skin_variations@.len() - i,
        {
            let entry = &self.skin_variations[i];
            let variation = EmojiSkinVariation {
                codepoint: to_lowercase(entry.1.codepoint.as_str()),
            };
            variations.push((entry.0.clone(), variation));
            i = i + 1;
        }
        proof {
            assert(skin_variations_view(variations@) =~= normalized_emoji(
                self@,
            ).skin_variations);
        }
        Emoji {
            codepoint: to_lowercase(self.codepoint.as_str()),
            name: self.name.clone(),
            short_name: to_lowercase(self.short_name.as_str()),
            category: self.category.clone(),
            subcategory: self.subcategory.clone(),
            sort_order: self.sort_order,
            skin_variations: variations,
        }
    }
}

/// Builds the catalog from the raw entries of the base emoji table.
pub fn get_emoji_map(records: &Vec<Emoji>) -> (r: EmojiCatalog)
    ensures
        r@ == catalog_of(emoji_views(records@)),
        keyed_by_codepoint(r@),
{
    let mut catalog = EmojiCatalog::new();
    let mut i: usize = 0;
    while i < records.len()
        invariant
            i <= records@.len(),
            catalog@ == catalog_of(emoji_views(records@).take(i as int)),
        decreases records@.len() - i,
    {
        let emoji = records[i].normalized();
        proof {
            let views = emoji_views(records@);
            assert(views.take(i + 1).drop_last() =~= views.take(i as int));
            assert(views.take(i + 1).last() == records@[i as int]@);
        }
        catalog.insert(emoji);
        i = i + 1;
    }
    proof {
        let views = emoji_views(records@);
        assert(views.take(records@.len() as int) =~= views);
        lemma_catalog_keyed_by_codepoint(views);
    }
    catalog
}

// ---------------------------------------------------------------------------
// Pair records
// ---------------------------------------------------------------------------

/// Why a pair record gives no pair.
#[derive(Debug)]
pub enum PairError {
    /// The record has fewer than three parts.
    Malformed,
    /// The catalog has no entry for the first codepoint, given here as it
    /// was looked up.
    UnknownBase(String),
    /// The catalog has no entry for the second codepoint, given here as it
    /// was looked up.
    UnknownPair(String),
    /// The date token is no hexadecimal number, or its date does not fit.
    InvalidDate(String),
}

/// What a [`PairError`] holds, as plain values.
pub enum PairErrorView {
    Malformed,
    UnknownBase(Seq<char>),
    UnknownPair(Seq<char>),
    InvalidDate(Seq<char>),
}

impl View for PairError {
    type V = PairErrorView;

    open spec fn view(&self) -> PairErrorView {
        match self {
            PairError::Malformed => PairErrorView::Malformed,
            PairError::UnknownBase(c) => PairErrorView::UnknownBase(c@),
            PairError::UnknownPair(c) => PairErrorView::UnknownPair(c@),
            PairError::InvalidDate(d) => PairErrorView::InvalidDate(d@),
        }
    }
}

impl PairError {
    /// A sentence that names the failure and the offending value.
    pub fn message(&self) -> (r: String)
        ensures
            r@ == match self@ {
                PairErrorView::Malformed => "pair record has fewer than three parts"@,
                PairErrorView::UnknownBase(c) => "[BASE] emoji data for "@ + c + " not found!"@,
                PairErrorView::UnknownPair(c) => "[PAIR] emoji data for "@ + c + " not found!"@,
                PairErrorView::InvalidDate(d) => "date token "@ + d + " is not a valid date"@,
            },
    {
        match self {
            PairError::Malformed => String::from_str("pair record has fewer than three parts"),
            PairError::UnknownBase(c) => {
                let mut out = String::from_str("[BASE] emoji data for ");
                out.append(c.as_str());
                out.append(" not found!");
                out
            },
            PairError::UnknownPair(c) => {
                let mut out = String::from_str("[PAIR] emoji data for ");
                out.append(c.as_str());
                out.append(" not found!");
                out
            },
            PairError::InvalidDate(d) => {
                let mut out = String::from_str("date token ");
                out.append(d.as_str());
                out.append(" is not a valid date");
                out
            },
        }
    }
}

/// The three parts of a pair record `date/codepoint/codepoint`: what stands
/// before the first `/`, between the first and the second, and after the
/// second up to a third or the end. `None` where the record has fewer than
/// two `/`.
pub open spec fn pair_record(line: Seq<char>) -> Option<(Seq<char>, Seq<char>, Seq<char>)> {
    let rest = after(line, '/');
    if has_char(line, '/') && has_char(rest, '/') {
        Some((before(line, '/'), before(rest, '/'), before(after(rest, '/'), '/')))
    } else {
        None
    }
}

/// The pair that a record gives against a catalog, or the reason why it
/// gives none. The checks come in this order: the shape of the record, the
/// first codepoint, the second codepoint, the date token.
pub open spec fn pair_from_record(line: Seq<char>, catalog: Map<Seq<char>, EmojiView>) -> Result<
    EmojiPairView,
    PairErrorView,
> {
    match pair_record(line) {
        None => Err(PairErrorView::Malformed),
        Some((d, raw1, raw2)) => {
            let c1 = canonical_codepoint(lowercase_of(raw1));
            let c2 = canonical_codepoint(lowercase_of(raw2));
            if !catalog.contains_key(c1) {
                Err(PairErrorView::UnknownBase(c1))
            } else if !catalog.contains_key(c2) {
                Err(PairErrorView::UnknownPair(c2))
            } else if date_of_token(d) is None {
                Err(PairErrorView::InvalidDate(d))
            } else {
                Ok(pair_of(d, catalog[c1], catalog[c2]))
            }
        },
    }
}

/// The view of the outcome of reading a pair record.
pub open spec fn pair_result_view(r: Result<EmojiPair, PairError>) -> Result<
    EmojiPairView,
    PairErrorView,
> {
    match r {
        Ok(p) => Ok(p@),
        Err(e) => Err(e@),
    }
}

/// A record that names one codepoint twice pairs an emoji with itself.
pub proof fn lemma_same_codepoint_same_emoji(line: Seq<char>, catalog: Map<Seq<char>, EmojiView>)
    requires
        pair_record(line) matches Some(parts) && parts.1 == parts.2,
    ensures
        pair_from_record(line, catalog) matches Ok(p) ==> p.base == p.pair,
{
}

/// Splits a pair record into its three parts.
pub fn split_pair_record<'a>(line: &'a str) -> (r: Option<(&'a str, &'a str, &'a str)>)
    ensures
        match r {
            Some(parts) => pair_record(line@) == Some((parts.0@, parts.1@, parts.2@)),
            None => pair_record(line@) is None,
        },
{
    let (d, rest) = split_first(line, '/');
    let rest = match rest {
        Some(rest) => rest,
        None => {
            return None;
        },
    };
    let (first, rest) = split_first(rest, '/');
    let rest = match rest {
        Some(rest) => rest,
        None => {
            return None;
        },
    };
    let (second, _) = split_first(rest, '/');
    Some((d, first, second))
}

impl EmojiPair {
    /// Reads one pair record against the catalog.
    pub fn from_pair_string(pair: &str, map: &EmojiCatalog) -> (r: Result<EmojiPair, PairError>)
        ensures
            pair_result_view(r) == pair_from_record(pair@, map@),
    {
        let (d, raw1, raw2) = match split_pair_record(pair) {
            Some(parts) => parts,
            None => {
                return Err(PairError::Malformed);
            },
        };
        let codepoint1 = EmojiPair::normalize_codepoint(raw1);
        let codepoint2 = EmojiPair::normalize_codepoint(raw2);
        let base = match map.get(codepoint1.as_str()) {
            Some(base) => base,
            None => {
                return Err(PairError::UnknownBase(codepoint1));
            },
        };
        let other = match map.get(codepoint2.as_str()) {
            Some(other) => other,
            None => {
                return Err(PairError::UnknownPair(codepoint2));
            },
        };
        if parse_date_token(d).is_none() {
            return Err(PairError::InvalidDate(String::from_str(d)));
        }
        Ok(EmojiPair::new(d, base, other))
    }
}

// ---------------------------------------------------------------------------
// The derived list
// ---------------------------------------------------------------------------

/// The derived list of pairs, sorted by sort order.
pub struct EmojiDB {
    pub pairs: Vec<EmojiPair>,
}

/// What narrows the derived list.
pub struct Options {
    /// Keep only the pairs of which one side has this short name.
    pub name: Option<String>,
}

impl Ranked for EmojiPair {
    open spec fn rank(&self) -> u16 {
        self.sort_order
    }

    fn rank_of(&self) -> (r: u16) {
        self.sort_order
    }
}

impl Ranked for EmojiPairView {
    open spec fn rank(&self) -> u16 {
        self.sort_order
    }

    fn rank_of(&self) -> (r: u16) {
        self.sort_order
    }
}

/// The views of a list of pairs, in order.
pub open spec fn pair_views(pairs: Seq<EmojiPair>) -> Seq<EmojiPairView> {
    Seq::new(pairs.len(), |i: int| pairs[i]@)
}

/// The short name that the options ask for, if any.
pub open spec fn wanted_name(options: Options) -> Option<Seq<char>> {
    match options.name {
        Some(n) => Some(n@),
        None => None,
    }
}

/// Whether a pair passes the name filter: without a name every pair does,
/// with one those of which the base or the pair side has exactly that short
/// name.
pub open spec fn selected(p: EmojiPairView, name: Option<Seq<char>>) -> bool {
    match name {
        Some(n) => p.base.short_name == n || p.pair.short_name == n,
        None => true,
    }
}

/// The pairs that a list of records gives, in the order of the records and
/// narrowed by the name filter; or the failure of the first record that
/// gives no pair, whether or not the filter would have kept it.
pub open spec fn pairs_of_records(
    lines: Seq<Seq<char>>,
    catalog: Map<Seq<char>, EmojiView>,
    name: Option<Seq<char>>,
) -> Result<Seq<EmojiPairView>, PairErrorView>
    decreases lines.len(),
{
    if lines.len() == 0 {
        Ok(Seq::empty())
    } else {
        match pairs_of_records(lines.drop_last(), catalog, name) {
            Err(e) => Err(e),
            Ok(pairs) => match pair_from_record(lines.last(), catalog) {
                Err(e) => Err(e),
                Ok(p) => Ok(
                    if selected(p, name) {
                        pairs.push(p)
                    } else {
                        pairs
                    },
                ),
            },
        }
    }
}

/// The records of a pair list: its lines, once the whitespace round the
/// whole text is gone.
pub open spec fn records_of(pairs_list: Seq<char>) -> Seq<Seq<char>> {
    split_on(trimmed(pairs_list), '\n')
}

/// Whether `pair` passes the name filter.
pub fn is_selected(pair: &EmojiPair, name: &Option<String>) -> (r: bool)
    ensures
        r == selected(
            pair@,
            match name {
                Some(n) => Some(n@),
                None => None,
            },
        ),
{
    match name {
        Some(n) => pair.base.short_name == *n || pair.pair.short_name == *n,
        None => true,
    }
}

/// Reads the records in order and keeps the pairs that pass the name
/// filter. The first record that gives no pair ends the reading with its
/// failure.
pub fn read_pairs(
    lines: &Vec<String>,
    emoji_map: &EmojiCatalog,
    name: &Option<String>,
) -> (r: Result<Vec<EmojiPair>, PairError>)
    ensures
        match r {
            Ok(pairs) => pairs_of_records(
                string_views(lines@),
                emoji_map@,
                match name {
                    Some(n) => Some(n@),
                    None => None,
                },
            ) == Ok::<Seq<EmojiPairView>, PairErrorView>(pair_views(pairs@)),
            Err(e) => pairs_of_records(
                string_views(lines@),
                emoji_map@,
                match name {
                    Some(n) => Some(n@),
                    None => None,
                },
            ) == Err::<Seq<EmojiPairView>, PairErrorView>(e@),
        },
{
    let ghost records = string_views(lines@);
    let ghost wanted: Option<Seq<char>> = match name {
        Some(n) => Some(n@),
        None => None,
    };
    let mut pairs: Vec<EmojiPair> = Vec::new();
    let mut i: usize = 0;
    proof {
        assert(pair_views(pairs@) =~= Seq::<EmojiPairView>::empty());
    }
    while i < lines.len()
        invariant
            i <= lines@.len(),
            records == string_views(lines@),
            wanted == (match name {
                Some(n) => Some(n@),
                None => None,
            }),
            pairs_of_records(records.take(i as int), emoji_map@, wanted) == Ok::<
                Seq<EmojiPairView>,
                PairErrorView,
            >(pair_views(pairs@)),
        decreases lines@.len() - i,
    {
        proof {
            assert(records.take(i + 1).drop_last() =~= records.take(i as int));
            assert(records.take(i + 1).last() == lines@[i as int]@);
        }
        let ghost before = pair_views(pairs@);
        match EmojiPair::from_pair_string(lines[i].as_str(), emoji_map) {
            Ok(pair) => {
                if is_selected(&pair, name) {
                    pairs.push(pair);
                    proof {
                        assert(pair_views(pairs@) =~= before.push(pair@));
                    }
                }
            },
            Err(e) => {
                proof {
                    assert(pairs_of_records(records.take(i + 1), emoji_map@, wanted) == Err::<
                        Seq<EmojiPairView>,
                        PairErrorView,
                    >(e@));
                    lemma_failure_stays(records, i + 1, emoji_map@, wanted);
                }
                return Err(e);
            },
        }
        i = i + 1;
    }
    proof {
        assert(records.take(lines@.len() as int) =~= records);
    }
    Ok(pairs)
}

/// Puts the pairs in stable order of their sort order.
pub fn sort_pairs(pairs: Vec<EmojiPair>) -> (r: Vec<EmojiPair>)
    ensures
        stable_sort_of(pair_views(r@), pair_views(pairs@)),
        forall|i: int, j: int|
            0 <= i <= j < r@.len() ==> r@[i].sort_order <= r@[j].sort_order,
{
    let sorted = stable_sort(pairs);
    proof {
        let f = |p: EmojiPair| p@;
        lemma_stable_sort_mapped::<EmojiPair, EmojiPairView>(sorted@, pairs@, f);
        assert(sorted@.map_values(f) =~= pair_views(sorted@));
        assert(pairs@.map_values(f) =~= pair_views(pairs@));
        assert forall|i: int, j: int| 0 <= i <= j < sorted@.len() implies sorted@[i].sort_order
            <= sorted@[j].sort_order by {
            assert(sorted@[i].rank() <= sorted@[j].rank());
        }
    }
    sorted
}

/// Derives the list of pairs from the newline-separated pair records and
/// the catalog: every record is read, the name filter of `options` is
/// applied, and the pairs are put in stable order of their sort order.
/// The first record that gives no pair ends the derivation with its
/// failure.
pub fn init(options: Options, pairs_list: &str, emoji_map: &EmojiCatalog) -> (r: Result<
    EmojiDB,
    PairError,
>)
    ensures
        match r {
            Ok(db) => {
                &&& pairs_of_records(records_of(pairs_list@), emoji_map@, wanted_name(options))
                    matches Ok(pairs)
                &&& stable_sort_of(pair_views(db.pairs@), pairs)
                &&& forall|i: int, j: int|
                    0 <= i <= j < db.pairs@.len() ==> db.pairs@[i].sort_order
                        <= db.pairs@[j].sort_order
            },
            Err(e) => pairs_of_records(records_of(pairs_list@), emoji_map@, wanted_name(options))
                == Err::<Seq<EmojiPairView>, PairErrorView>(e@),
        },
{
    let lines = split_all(trim(pairs_list), '\n');
    match read_pairs(&lines, emoji_map, &options.name) {
        Ok(pairs) => Ok(EmojiDB { pairs: sort_pairs(pairs) }),
        Err(e) => Err(e),
    }
}

/// Once a prefix of the records has failed, the whole list fails the same
/// way.
pub proof fn lemma_failure_stays(
    lines: Seq<Seq<char>>,
    k: int,
    catalog: Map<Seq<char>, EmojiView>,
    name: Option<Seq<char>>,
)
    requires
        0 <= k <= lines.len(),
        pairs_of_records(lines.take(k), catalog, name) is Err,
    ensures
        pairs_of_records(lines, catalog, name) == pairs_of_records(lines.take(k), catalog, name),
    decreases lines.len(),
{
    if k == lines.len() {
        assert(lines.take(k) =~= lines);
    } else {
        assert(lines.drop_last().take(k) =~= lines.take(k));
        lemma_failure_stays(lines.drop_last(), k, catalog, name);
    }
}

// ---------------------------------------------------------------------------
// Download jobs
// ---------------------------------------------------------------------------

/// The job that fetches the image of a pair and saves it as it is.
pub open spec fn pair_job(pair: EmojiPairView) -> JobView {
    JobView { filename: pair.filename, url: pair.image_url, resize: None }
}

impl EmojiPair {
    /// The job that fetches the image of this pair and saves it as it is.
    pub fn job(&self) -> (r: Job)
        ensures
            r@ == pair_job(self@),
    {
        Job { filename: self.filename.clone(), url: self.image_url.clone(), resize: None }
    }
}

/// One job for every pair, in order.
pub fn jobs(pairs: &Vec<EmojiPair>) -> (r: Vec<Job>)
    ensures
        r@.len() == pairs@.len(),
        forall|i: int| 0 <= i < pairs@.len() ==> (#[trigger] r@[i])@ == pair_job(pairs@[i]@),
{
    let mut out: Vec<Job> = Vec::new();
    let mut i: usize = 0;
    while i < pairs.len()
        invariant
            i <= pairs@.len(),
            out@.len() == i,
            forall|j: int| 0 <= j < i ==> (#[trigger] out@[j])@ == pair_job(pairs@[j]@),
        decreases pairs@.len() - i,
    {
        out.push(pairs[i].job());
        i = i + 1;
    }
    out
}

} // verus!
