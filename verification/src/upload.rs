//! Uploads of saved animations: which files of a directory are uploaded,
//! under which name and media type, and how the reply is read.

use crate::animations::animated_filename;
use crate::batch::{failure_text, Failure};
use crate::emoji::{EmojiCatalog, EmojiView};
use crate::text::{
    after, before, decimal, has_char, lemma_split_joined, push_char, push_decimal,
    replace_char, replace_char_in, split_first,
};
use crate::utils::{is_success, mime_type_from_extension, mime_type_of, success_status};
use vstd::prelude::*;

verus! {

/// A file found in the directory of saved animations.
#[derive(Debug)]
pub struct SavedFile {
    /// The name of the file, without its directory.
    pub filename: String,
    /// Where the file lies.
    pub path: String,
}

/// An emoji to upload: its name on the platform and the file to send.
#[derive(Debug)]
pub struct UploadEmoji {
    pub name: String,
    pub path: String,
}

/// The body of the reply to an upload.
#[derive(Debug)]
pub struct UploadResponseBody {
    pub ok: bool,
    pub error: String,
}

/// Why a file cannot be uploaded.
#[derive(Debug)]
pub enum UploadError {
    /// The file name has no second part to read the codepoint from.
    MissingCodepoint(String),
    /// The path has no extension.
    MissingExtension,
    /// The extension stands for no known media type.
    UnsupportedExtension(String),
}

/// The codepoint that the name of a saved animation carries: its second
/// part, between the first `.` and the next or the end, with every `_`
/// turned into `-`. `None` where the name has no `.`.
pub open spec fn codepoint_in_filename(filename: Seq<char>) -> Option<Seq<char>> {
    if has_char(filename, '.') {
        Some(replace_char(before(after(filename, '.'), '.'), '_', seq!['-']))
    } else {
        None
    }
}

/// The name under which an animation is saved carries its codepoint: where
/// no `.` occurs in short name and codepoint, reading the codepoint out of
/// the file name gives the codepoint back, with every `_` turned into `-`.
pub proof fn lemma_filename_carries_codepoint(short_name: Seq<char>, codepoint: Seq<char>)
    requires
        !has_char(short_name, '.'),
        !has_char(codepoint, '.'),
    ensures
        codepoint_in_filename(animated_filename(short_name, codepoint)) == Some(
            replace_char(codepoint, '_', seq!['-']),
        ),
{
    reveal_strlit(".gif");
    let ending = seq!['g', 'i', 'f'];
    let rest = codepoint + seq!['.'] + ending;
    let name = animated_filename(short_name, codepoint);
    assert(".gif"@ =~= seq!['.'] + ending);
    assert(name =~= short_name + seq!['.'] + rest);
    lemma_split_joined(short_name, '.', rest);
    lemma_split_joined(codepoint, '.', ending);
    assert(name[short_name.len() as int] == '.');
}

/// Reads the codepoint out of the name of a saved animation.
pub fn codepoint_from_filename(filename: &str) -> (r: Option<String>)
    ensures
        match r {
            Some(codepoint) => codepoint_in_filename(filename@) == Some(codepoint@),
            None => codepoint_in_filename(filename@) is None,
        },
{
    let (_, rest) = split_first(filename, '.');
    match rest {
        Some(rest) => {
            let (part, _) = split_first(rest, '.');
            proof {
                reveal_strlit("-");
                assert("-"@ =~= seq!['-']);
            }
            Some(replace_char_in(part, '_', "-"))
        },
        None => None,
    }
}

/// The name under which an animation is uploaded.
pub open spec fn upload_name(short_name: Seq<char>) -> Seq<char> {
    short_name + "_animated"@
}

/// What a saved file gives for the upload: nothing where the catalog has no
/// entry for its codepoint or the entry has another short name than the one
/// asked for; else the name to upload under, and the path. `None` at the
/// top where the file name carries no codepoint.
pub open spec fn upload_of(
    filename: Seq<char>,
    path: Seq<char>,
    catalog: Map<Seq<char>, EmojiView>,
    name_query: Option<Seq<char>>,
) -> Option<Option<(Seq<char>, Seq<char>)>> {
    match codepoint_in_filename(filename) {
        None => None,
        Some(codepoint) => Some(
            if !catalog.contains_key(codepoint) {
                None
            } else if name_query is Some && name_query->0 != catalog[codepoint].short_name {
                None
            } else {
                Some((upload_name(catalog[codepoint].short_name), path))
            },
        ),
    }
}

/// What all saved files give for the upload, in order; or the name of the
/// first file that carries no codepoint.
pub open spec fn uploads_of(
    files: Seq<(Seq<char>, Seq<char>)>,
    catalog: Map<Seq<char>, EmojiView>,
    name_query: Option<Seq<char>>,
) -> Result<Seq<(Seq<char>, Seq<char>)>, Seq<char>>
    decreases files.len(),
{
    if files.len() == 0 {
        Ok(Seq::empty())
    } else {
        match uploads_of(files.drop_last(), catalog, name_query) {
            Err(name) => Err(name),
            Ok(uploads) => match upload_of(files.last().0, files.last().1, catalog, name_query) {
                None => Err(files.last().0),
                Some(None) => Ok(uploads),
                Some(Some(upload)) => Ok(uploads.push(upload)),
            },
        }
    }
}

/// File name and path of each saved file, in order.
pub open spec fn file_views(files: Seq<SavedFile>) -> Seq<(Seq<char>, Seq<char>)> {
    Seq::new(files.len(), |i: int| (files[i].filename@, files[i].path@))
}

/// Name and path of each upload, in order.
pub open spec fn upload_views(uploads: Seq<UploadEmoji>) -> Seq<(Seq<char>, Seq<char>)> {
    Seq::new(uploads.len(), |i: int| (uploads[i].name@, uploads[i].path@))
}

/// The upload that one saved file gives, if any.
pub fn upload_for(file: &SavedFile, catalog: &EmojiCatalog, name_query: &Option<String>) -> (r:
    Result<Option<UploadEmoji>, UploadError>)
    ensures
        match r {
            Ok(Some(upload)) => upload_of(
                file.filename@,
                file.path@,
                catalog@,
                match name_query {
                    Some(n) => Some(n@),
                    None => None,
                },
            ) == Some(Some((upload.name@, upload.path@))),
            Ok(None) => upload_of(
                file.filename@,
                file.path@,
                catalog@,
                match name_query {
                    Some(n) => Some(n@),
                    None => None,
                },
            ) == Some(None::<(Seq<char>, Seq<char>)>),
            Err(e) => e matches UploadError::MissingCodepoint(name) && name@ == file.filename@
                && codepoint_in_filename(file.filename@) is None,
        },
{
    let codepoint = match codepoint_from_filename(file.filename.as_str()) {
        Some(codepoint) => codepoint,
        None => {
            return Err(UploadError::MissingCodepoint(file.filename.clone()));
        },
    };
    let emoji = match catalog.get(codepoint.as_str()) {
        Some(emoji) => emoji,
        None => {
            return Ok(None);
        },
    };
    match name_query {
        Some(n) => {
            if !(*n == emoji.short_name) {
                return Ok(None);
            }
        },
        None => {},
    }
    let mut name = emoji.short_name.clone();
    name.append("_animated");
    Ok(Some(UploadEmoji { name, path: file.path.clone() }))
}

/// The uploads that the saved files of a directory give, in the order of
/// the files. The first file whose name carries no codepoint ends the
/// reading.
pub fn get_emoji_data_from_dir(
    files: &Vec<SavedFile>,
    catalog: &EmojiCatalog,
    name_query: &Option<String>,
) -> (r: Result<Vec<UploadEmoji>, UploadError>)
    ensures
        match r {
            Ok(uploads) => uploads_of(
                file_views(files@),
                catalog@,
                match name_query {
                    Some(n) => Some(n@),
                    None => None,
                },
            ) == Ok::<Seq<(Seq<char>, Seq<char>)>, Seq<char>>(upload_views(uploads@)),
            Err(e) => e matches UploadError::MissingCodepoint(name) && uploads_of(
                file_views(files@),
                catalog@,
                match name_query {
                    Some(n) => Some(n@),
                    None => None,
                },
            ) == Err::<Seq<(Seq<char>, Seq<char>)>, Seq<char>>(name@),
        },
{
    let ghost all = file_views(files@);
    let ghost wanted: Option<Seq<char>> = match name_query {
        Some(n) => Some(n@),
        None => None,
    };
    let mut out: Vec<UploadEmoji> = Vec::new();
    let mut i: usize = 0;
    proof {
        assert(upload_views(out@) =~= Seq::<(Seq<char>, Seq<char>)>::empty());
    }
    while i < files.len()
        invariant
            i <= files@.len(),
            all == file_views(files@),
            wanted == (match name_query {
                Some(n) => Some(n@),
                None => None,
            }),
            uploads_of(all.take(i as int), catalog@, wanted) == Ok::<
                Seq<(Seq<char>, Seq<char>)>,
                Seq<char>,
            >(upload_views(out@)),
        decreases files@.len() - i,
    {
        proof {
            assert(all.take(i + 1).drop_last() =~= all.take(i as int));
            assert(all.take(i + 1).last() == all[i as int]);
        }
        let ghost before = upload_views(out@);
        match upload_for(&files[i], catalog, name_query) {
            Ok(Some(upload)) => {
                out.push(upload);
                proof {
                    assert(upload_views(out@) =~= before.push((upload.name@, upload.path@)));
                }
            },
            Ok(None) => {},
            Err(e) => {
                proof {
                    lemma_missing_stays(all, i + 1, catalog@, wanted);
                }
                return Err(e);
            },
        }
        i = i + 1;
    }
    proof {
        assert(all.take(files@.len() as int) =~= all);
    }
    Ok(out)
}

/// Once a prefix of the files has failed, the whole list fails the same
/// way.
pub proof fn lemma_missing_stays(
    files: Seq<(Seq<char>, Seq<char>)>,
    k: int,
    catalog: Map<Seq<char>, EmojiView>,
    name_query: Option<Seq<char>>,
)
    requires
        0 <= k <= files.len(),
        uploads_of(files.take(k), catalog, name_query) is Err,
    ensures
        uploads_of(files, catalog, name_query) == uploads_of(files.take(k), catalog, name_query),
    decreases files.len(),
{
    if k == files.len() {
        assert(files.take(k) =~= files);
    } else {
        assert(files.drop_last().take(k) =~= files.take(k));
        lemma_missing_stays(files.drop_last(), k, catalog, name_query);
    }
}

// ---------------------------------------------------------------------------
// Media types
// ---------------------------------------------------------------------------

/// What an [`UploadError`] holds, as plain values.
pub enum UploadErrorView {
    MissingCodepoint(Seq<char>),
    MissingExtension,
    UnsupportedExtension(Seq<char>),
}

impl View for UploadError {
    type V = UploadErrorView;

    open spec fn view(&self) -> UploadErrorView {
        match self {
            UploadError::MissingCodepoint(name) => UploadErrorView::MissingCodepoint(name@),
            UploadError::MissingExtension => UploadErrorView::MissingExtension,
            UploadError::UnsupportedExtension(ext) => UploadErrorView::UnsupportedExtension(ext@),
        }
    }
}

/// Whether `ext` stands in `path` right behind the `.` at index `at`.
pub open spec fn extension_at(path: Seq<char>, ext: Seq<char>, at: int) -> bool {
    &&& 0 <= at
    &&& at + 1 + ext.len() <= path.len()
    &&& path[at] == '.'
    &&& path.subrange(at + 1, at + 1 + ext.len()) == ext
}

/// Whether `ext` can be the extension of `path` on any platform: it holds
/// no `.`, and it stands in the path right behind one.
pub open spec fn holds_extension(path: Seq<char>, ext: Seq<char>) -> bool {
    &&& !has_char(ext, '.')
    &&& exists|at: int| #[trigger] extension_at(path, ext, at)
}

/// Whether `extension` can be what a platform finds as the extension of
/// `path`: none, or one that the path holds.
pub open spec fn admits_extension(path: Seq<char>, extension: Option<Seq<char>>) -> bool {
    match extension {
        Some(ext) => holds_extension(path, ext),
        None => true,
    }
}

/// The media type that belongs to the extension found for a file, or the
/// failure: no extension, or one that stands for no known media type.
pub open spec fn media_type_for(extension: Option<Seq<char>>) -> Result<
    Seq<char>,
    UploadErrorView,
> {
    match extension {
        None => Err(UploadErrorView::MissingExtension),
        Some(ext) => match mime_type_of(ext) {
            Some(mime) => Ok(mime),
            None => Err(UploadErrorView::UnsupportedExtension(ext)),
        },
    }
}

/// The view of a media type or the failure to find one.
pub open spec fn media_type_view(r: Result<String, UploadError>) -> Result<
    Seq<char>,
    UploadErrorView,
> {
    match r {
        Ok(mime) => Ok(mime@),
        Err(e) => Err(e@),
    }
}

/// A path that holds an extension holds a `.`.
pub proof fn lemma_extension_needs_dot(path: Seq<char>, ext: Seq<char>)
    requires
        holds_extension(path, ext),
    ensures
        has_char(path, '.'),
{
    let at = choose|at: int| #[trigger] extension_at(path, ext, at);
    assert(path[at] == '.');
}

/// The extension of a path.
///
/// Trusted: `Path::extension` of the standard library, on the path made of
/// `path`. What counts as the file name of a path, and so whether it has an
/// extension and which, differs between platforms and is not claimed. On
/// every platform an extension is the part of the file name behind its last
/// `.`: it holds no `.`, and it stands in the path right behind one. That
/// much is claimed.
#[verifier::external_body]
fn path_extension(path: &str) -> (r: Option<String>)
    ensures
        r matches Some(ext) ==> holds_extension(path@, ext@),
{
    std::path::Path::new(path).extension().and_then(|ext| ext.to_str()).map(|ext| ext.to_owned())
}

/// The media type for the extension of a file: known for `gif` and `png`
/// in any case, a failure for every other extension and where there is
/// none.
pub fn mime_type_for(extension: Option<String>) -> (r: Result<String, UploadError>)
    ensures
        match extension {
            None => r matches Err(UploadError::MissingExtension),
            Some(ext) => match mime_type_of(ext@) {
                Some(mime) => r matches Ok(found) && found@ == mime,
                None => r matches Err(UploadError::UnsupportedExtension(given)) && given@ == ext@,
            },
        },
{
    match extension {
        None => Err(UploadError::MissingExtension),
        Some(ext) => match mime_type_from_extension(ext.as_str()) {
            Some(mime) => Ok(mime),
            None => Err(UploadError::UnsupportedExtension(ext)),
        },
    }
}

impl UploadEmoji {
    /// The media type of the file, by the extension of its path. The
    /// platform finds the extension; whatever it finds, the outcome is that
    /// of [`mime_type_for`] on it: the media type of `gif` or `png` in any
    /// case, a failure for every other extension and where there is none.
    /// The extension found is one that the path holds, so a path without a
    /// `.` has none.
    pub fn mime_type(&self) -> (r: Result<String, UploadError>)
        ensures
            exists|extension: Option<Seq<char>>|
                admits_extension(self.path@, extension) && media_type_view(r)
                    == #[trigger] media_type_for(extension),
            !has_char(self.path@, '.') ==> r matches Err(UploadError::MissingExtension),
            r matches Ok(mime) ==> mime@ == "image/gif"@ || mime@ == "image/png"@,
    {
        let extension = path_extension(self.path.as_str());
        let ghost found: Option<Seq<char>> = match &extension {
            Some(ext) => Some(ext@),
            None => None,
        };
        proof {
            if let Some(ext) = found {
                lemma_extension_needs_dot(self.path@, ext);
            }
        }
        let r = mime_type_for(extension);
        proof {
            assert(admits_extension(self.path@, found));
            assert(media_type_view(r) == media_type_for(found));
        }
        r
    }
}

// ---------------------------------------------------------------------------
// Requests and replies
// ---------------------------------------------------------------------------

/// Where the uploads of a workspace go.
pub open spec fn upload_endpoint_of(workspace_name: Seq<char>) -> Seq<char> {
    "https://"@ + workspace_name + ".slack.com/api/emoji.add"@
}

/// Where the uploads of the workspace `workspace_name` go.
pub fn upload_endpoint(workspace_name: &str) -> (r: String)
    ensures
        r@ == upload_endpoint_of(workspace_name@),
{
    let mut out = String::from_str("https://");
    out.append(workspace_name);
    out.append(".slack.com/api/emoji.add");
    out
}

/// Reads the status of a reply: a failure with the words for the status
/// unless the status is one of 200 to 299.
pub fn check_status(status: u16, reason: String) -> (r: Result<(), String>)
    ensures
        r is Ok <==> success_status(status),
        r matches Err(text) ==> text@ == reason@,
{
    if is_success(status) {
        Ok(())
    } else {
        Err(reason)
    }
}

/// Reads the body of a successful reply to an upload: a failure with the
/// platform's words unless the body says `ok`.
pub fn check_upload_body(body: UploadResponseBody) -> (r: Result<(), String>)
    ensures
        r is Ok <==> body.ok,
        r matches Err(text) ==> text@ == body.error@,
{
    if body.ok {
        Ok(())
    } else {
        Err(body.error)
    }
}

// ---------------------------------------------------------------------------
// The report
// ---------------------------------------------------------------------------

/// The line that gives the number of emoji found for the upload.
pub open spec fn found_text(count: nat) -> Seq<char> {
    "\u{2139}\u{fe0f} "@ + decimal(count) + " emoji found"@
}

/// The words that name an upload in the report: its name and its path.
pub open spec fn upload_description(name: Seq<char>, path: Seq<char>) -> Seq<char> {
    name + seq![' '] + path
}

/// The line that reports the end of an upload: the name of the emoji after
/// a success, the description of the upload and the words of the failure
/// after a failure.
pub open spec fn upload_status_text(
    name: Seq<char>,
    path: Seq<char>,
    failure: Option<Seq<char>>,
) -> Seq<char> {
    match failure {
        None => "\u{2705} "@ + name,
        Some(detail) => failure_text(upload_description(name, path), detail),
    }
}

/// The line that gives the number of emoji found for the upload.
pub fn found_line(count: usize) -> (r: String)
    ensures
        r@ == found_text(count as nat),
{
    let mut out = String::from_str("\u{2139}\u{fe0f} ");
    push_decimal(&mut out, count as u64);
    out.append(" emoji found");
    out
}

/// The failure of an upload as it is listed in the report.
pub fn upload_failure(emoji: &UploadEmoji, detail: String) -> (r: Failure)
    ensures
        r.description@ == upload_description(emoji.name@, emoji.path@),
        r.detail@ == detail@,
{
    let mut description = emoji.name.clone();
    push_char(&mut description, ' ');
    description.append(emoji.path.as_str());
    Failure { description, detail }
}

/// The line that reports the end of an upload.
pub fn upload_status_line(emoji: &UploadEmoji, result: &Result<(), String>) -> (r: String)
    ensures
        r@ == upload_status_text(
            emoji.name@,
            emoji.path@,
            match result {
                Ok(_) => None,
                Err(detail) => Some(detail@),
            },
        ),
{
    match result {
        Ok(_) => {
            let mut out = String::from_str("\u{2705} ");
            out.append(emoji.name.as_str());
            out
        },
        Err(detail) => upload_failure(emoji, detail.clone()).line(),
    }
}

} // verus!
