//! The listing of the saved animations: one label for every file that the
//! catalog knows, in the order of the catalog.

use crate::emoji::{EmojiCatalog, EmojiView};
use crate::order::{lemma_stable_sort_mapped, stable_sort, stable_sort_of, Ranked};
use crate::upload::{codepoint_from_filename, codepoint_in_filename};
use vstd::prelude::*;

verus! {

/// The label of a saved animation and the sort order to list it by.
#[derive(Debug)]
pub struct Label {
    pub sort_order: u16,
    pub text: String,
}

/// What a [`Label`] holds, as plain values.
pub struct LabelView {
    pub sort_order: u16,
    pub text: Seq<char>,
}

impl View for Label {
    type V = LabelView;

    open spec fn view(&self) -> LabelView {
        LabelView { sort_order: self.sort_order, text: self.text@ }
    }
}

impl Ranked for Label {
    open spec fn rank(&self) -> u16 {
        self.sort_order
    }

    fn rank_of(&self) -> (r: u16) {
        self.sort_order
    }
}

impl Ranked for LabelView {
    open spec fn rank(&self) -> u16 {
        self.sort_order
    }

    fn rank_of(&self) -> (r: u16) {
        self.sort_order
    }
}

/// The label of an emoji: its short name as the name of an animated emoji,
/// between colons, with a space behind.
pub open spec fn label_text(short_name: Seq<char>) -> Seq<char> {
    seq![':'] + short_name + "_animated: "@
}

/// The label that a saved file gives: none where the catalog has no entry
/// for its codepoint. `None` at the top where the file name carries no
/// codepoint.
pub open spec fn label_of(filename: Seq<char>, catalog: Map<Seq<char>, EmojiView>) -> Option<
    Option<LabelView>,
> {
    match codepoint_in_filename(filename) {
        None => None,
        Some(codepoint) => Some(
            if catalog.contains_key(codepoint) {
                Some(
                    LabelView {
                        sort_order: catalog[codepoint].sort_order,
                        text: label_text(catalog[codepoint].short_name),
                    },
                )
            } else {
                None
            },
        ),
    }
}

/// The labels that the saved files give, in the order of the files; or the
/// name of the first file that carries no codepoint.
pub open spec fn labels_of(filenames: Seq<Seq<char>>, catalog: Map<Seq<char>, EmojiView>) -> Result<
    Seq<LabelView>,
    Seq<char>,
>
    decreases filenames.len(),
{
    if filenames.len() == 0 {
        Ok(Seq::empty())
    } else {
        match labels_of(filenames.drop_last(), catalog) {
            Err(name) => Err(name),
            Ok(labels) => match label_of(filenames.last(), catalog) {
                None => Err(filenames.last()),
                Some(None) => Ok(labels),
                Some(Some(label)) => Ok(labels.push(label)),
            },
        }
    }
}

/// The views of a list of labels, in order.
pub open spec fn label_views(labels: Seq<Label>) -> Seq<LabelView> {
    Seq::new(labels.len(), |i: int| labels[i]@)
}

/// The views of a list of file names, in order.
pub open spec fn name_views(names: Seq<String>) -> Seq<Seq<char>> {
    Seq::new(names.len(), |i: int| names[i]@)
}

/// The label that one saved file gives, if any; the file name back where it
/// carries no codepoint.
pub fn label_for(filename: &String, catalog: &EmojiCatalog) -> (r: Result<Option<Label>, String>)
    ensures
        match r {
            Ok(Some(label)) => label_of(filename@, catalog@) == Some(Some(label@)),
            Ok(None) => label_of(filename@, catalog@) == Some(None::<LabelView>),
            Err(name) => label_of(filename@, catalog@) is None && name@ == filename@,
        },
{
    let codepoint = match codepoint_from_filename(filename.as_str()) {
        Some(codepoint) => codepoint,
        None => {
            return Err(filename.clone());
        },
    };
    match catalog.get(codepoint.as_str()) {
        Some(emoji) => {
            let mut text = String::from_str(":");
            text.append(emoji.short_name.as_str());
            text.append("_animated: ");
            proof {
                reveal_strlit(":");
                assert(":"@ =~= seq![':']);
            }
            Ok(Some(Label { sort_order: emoji.sort_order, text }))
        },
        None => Ok(None),
    }
}

/// Reads the labels of the saved files, in the order of the files.
pub fn read_labels(filenames: &Vec<String>, catalog: &EmojiCatalog) -> (r: Result<
    Vec<Label>,
    String,
>)
    ensures
        match r {
            Ok(labels) => labels_of(name_views(filenames@), catalog@) == Ok::<
                Seq<LabelView>,
                Seq<char>,
            >(label_views(labels@)),
            Err(name) => labels_of(name_views(filenames@), catalog@) == Err::<
                Seq<LabelView>,
                Seq<char>,
            >(name@),
        },
{
    let ghost all = name_views(filenames@);
    let mut out: Vec<Label> = Vec::new();
    let mut i: usize = 0;
    proof {
        assert(label_views(out@) =~= Seq::<LabelView>::empty());
    }
    while i < filenames.len()
        invariant
            i <= filenames@.len(),
            all == name_views(filenames@),
            labels_of(all.take(i as int), catalog@) == Ok::<Seq<LabelView>, Seq<char>>(
                label_views(out@),
            ),
        decreases filenames@.len() - i,
    {
        proof {
            assert(all.take(i + 1).drop_last() =~= all.take(i as int));
            assert(all.take(i + 1).last() == all[i as int]);
        }
        let ghost before = label_views(out@);
        match label_for(&filenames[i], catalog) {
            Ok(Some(label)) => {
                out.push(label);
                proof {
                    assert(label_views(out@) =~= before.push(label@));
                }
            },
            Ok(None) => {},
            Err(name) => {
                proof {
                    lemma_unreadable_stays(all, i + 1, catalog@);
                }
                return Err(name);
            },
        }
        i = i + 1;
    }
    proof {
        assert(all.take(filenames@.len() as int) =~= all);
    }
    Ok(out)
}

/// Once a prefix of the file names has failed, the whole list fails the
/// same way.
pub proof fn lemma_unreadable_stays(
    filenames: Seq<Seq<char>>,
    k: int,
    catalog: Map<Seq<char>, EmojiView>,
)
    requires
        0 <= k <= filenames.len(),
        labels_of(filenames.take(k), catalog) is Err,
    ensures
        labels_of(filenames, catalog) == labels_of(filenames.take(k), catalog),
    decreases filenames.len(),
{
    if k == filenames.len() {
        assert(filenames.take(k) =~= filenames);
    } else {
        assert(filenames.drop_last().take(k) =~= filenames.take(k));
        lemma_unreadable_stays(filenames.drop_last(), k, catalog);
    }
}

/// The labels of the saved animations that the catalog knows, in stable
/// order of their sort order. The first file whose name carries no
/// codepoint ends the listing, with its name.
pub fn show_animated(filenames: &Vec<String>, catalog: &EmojiCatalog) -> (r: Result<
    Vec<Label>,
    String,
>)
    ensures
        match r {
            Ok(labels) => labels_of(name_views(filenames@), catalog@) matches Ok(unsorted)
                && stable_sort_of(label_views(labels@), unsorted),
            Err(name) => labels_of(name_views(filenames@), catalog@) == Err::<
                Seq<LabelView>,
                Seq<char>,
            >(name@),
        },
{
    match read_labels(filenames, catalog) {
        Ok(labels) => {
            let ghost unsorted = labels@;
            let sorted = stable_sort(labels);
            proof {
                let f = |l: Label| l@;
                lemma_stable_sort_mapped::<Label, LabelView>(sorted@, unsorted, f);
                assert(sorted@.map_values(f) =~= label_views(sorted@));
                assert(unsorted.map_values(f) =~= label_views(unsorted));
            }
            Ok(sorted)
        },
        Err(name) => Err(name),
    }
}

} // verus!
