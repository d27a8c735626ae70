//! What every producer of generated images shares: where an image and its
//! metadata are saved, and how a saved image is announced.
use crate::events::{Event, StreamEvent};
use crate::sequences::lemma_filter_all_or_none;
use crate::strings::{
    decimal, decimal_text, is_digit, law_decimal_reads_back, text_of, without_plus,
};
use vstd::prelude::*;
use vstd::string::StringExecFns;

verus! {

/// The most characters of an id that a file name keeps.
pub const MAX_SLUG_CHARS: usize = 80;

/// The characters of an id that a file name keeps: ASCII letters and digits,
/// the underscore and the hyphen.
pub open spec fn file_safe(c: char) -> bool {
    ||| '0' <= c <= '9'
    ||| 'A' <= c <= 'Z'
    ||| 'a' <= c <= 'z'
    ||| c == '_'
    ||| c == '-'
}

/// The first file-safe characters of `id`, at most [`MAX_SLUG_CHARS`] of them.
pub open spec fn safe_chars(id: Seq<char>) -> Seq<char> {
    first_chars(id.filter(|c: char| file_safe(c)))
}

/// The first [`MAX_SLUG_CHARS`] characters of `s`, or all of a shorter one.
pub open spec fn first_chars(s: Seq<char>) -> Seq<char> {
    if s.len() <= MAX_SLUG_CHARS {
        s
    } else {
        s.take(MAX_SLUG_CHARS as int)
    }
}

/// The form of `id` that a file name can hold.
pub open spec fn slug(id: Seq<char>) -> Seq<char> {
    if safe_chars(id).len() == 0 {
        "image"@
    } else {
        safe_chars(id)
    }
}

/// The name, without its extension, of the files of an image.
pub open spec fn file_stem(timestamp_ms: nat, id: Seq<char>) -> Seq<char> {
    decimal(timestamp_ms) + "-"@ + slug(id) + "."@
}

/// The name of a file of an image.
pub open spec fn file_name(timestamp_ms: nat, id: Seq<char>, extension: Seq<char>) -> Seq<char> {
    file_stem(timestamp_ms, id) + extension
}

/// The text that shows a saved image in a reply.
pub open spec fn image_markdown(path: Seq<char>, metadata_path: Option<Seq<char>>) -> Seq<char> {
    let shown = "\n![Generated image]("@ + path + ")\n\nGenerated image saved to `"@ + path + "`."@;
    let noted = match metadata_path {
        Some(metadata) => shown + "\nMetadata saved to `"@ + metadata + "`."@,
        None => shown,
    };
    noted + "\n"@
}

/// Whether a file name may keep `c`.
fn is_file_safe(c: char) -> (safe: bool)
    ensures
        safe == file_safe(c),
{
    ('0' <= c && c <= '9') || ('A' <= c && c <= 'Z') || ('a' <= c && c <= 'z') || c == '_' || c
        == '-'
}

/// The form of `id` that a file name can hold: its first file-safe characters,
/// or `image` where it has none.
pub fn file_slug(id: &str) -> (name: String)
    ensures
        name@ == slug(id@),
{
    let mut name = String::new();
    let mut kept: usize = 0;
    let ghost safe = |c: char| file_safe(c);
    assert(id@.take(0).filter(safe) =~= Seq::<char>::empty()) by {
        reveal(Seq::filter);
    }
    for c in it: id.chars()
        invariant
            it.seq() == id@,
            safe == (|c: char| file_safe(c)),
            name@ == first_chars(id@.take(it.index() as int).filter(safe)),
            kept == name@.len(),
            kept <= MAX_SLUG_CHARS,
    {
        let ghost seen = id@.take(it.index() as int);
        assert(id@.take(it.index() + 1).drop_last() =~= seen);
        assert(id@.take(it.index() + 1).filter(safe) == if file_safe(c) {
            seen.filter(safe).push(c)
        } else {
            seen.filter(safe)
        }) by {
            reveal(Seq::filter);
        }
        if is_file_safe(c) && kept < MAX_SLUG_CHARS {
            name.push(c);
            kept = kept + 1;
        }
        assert(name@ =~= first_chars(id@.take(it.index() + 1).filter(safe)));
    }
    assert(id@.take(id@.len() as int) =~= id@);
    if name.as_str().is_empty() {
        "image".to_owned()
    } else {
        name
    }
}

/// A slug is never empty, never longer than [`MAX_SLUG_CHARS`], holds only
/// file-safe characters, and is its own slug.
pub proof fn law_slug_is_a_file_name(id: Seq<char>)
    ensures
        0 < slug(id).len() <= MAX_SLUG_CHARS,
        forall|i: int| 0 <= i < slug(id).len() ==> file_safe(#[trigger] slug(id)[i]),
        slug(slug(id)) == slug(id),
{
    let safe = |c: char| file_safe(c);
    reveal_strlit("image");
    let made = slug(id);
    assert forall|i: int| 0 <= i < made.len() implies file_safe(#[trigger] made[i]) by {
        if safe_chars(id).len() > 0 {
            id.lemma_filter_pred(safe, i);
        }
    }
    lemma_filter_all_or_none(made, safe);
}

/// A stem ends in its only dot and holds no path separator: the two files of an
/// image differ in their extension alone, and neither leaves its directory.
pub proof fn law_stem_is_one_path_component(timestamp_ms: nat, id: Seq<char>)
    ensures
        file_stem(timestamp_ms, id).last() == '.',
        forall|i: int|
            0 <= i < file_stem(timestamp_ms, id).len() - 1 ==> file_safe(
                #[trigger] file_stem(timestamp_ms, id)[i],
            ),
        !file_safe('.') && !file_safe('/') && !file_safe('\\'),
{
    reveal_strlit("-");
    reveal_strlit(".");
    law_slug_is_a_file_name(id);
    law_decimal_reads_back(timestamp_ms);
    let stem = file_stem(timestamp_ms, id);
    let digits = decimal(timestamp_ms);
    assert forall|i: int| 0 <= i < stem.len() - 1 implies file_safe(#[trigger] stem[i]) by {
        if i < digits.len() {
            assert(is_digit(without_plus(digits)[i]));
        } else if i > digits.len() {
            assert(file_safe(slug(id)[i - digits.len() - 1]));
        }
    }
}

/// Why an image could not be saved.
#[derive(Clone, Copy, Debug, PartialEq, Eq)]
pub enum SaveFailure {
    /// The directory for it could not be made.
    Directory,
    /// Its file could not be written.
    Image,
}

/// The names of the two files of a saved image.
pub struct ImageFiles {
    pub image: String,
    pub metadata: String,
}

/// Names the files of an image made at `timestamp_ms`: the image under
/// `extension`, and its metadata beside it under `json`.
pub fn name_image_files(timestamp_ms: u128, id: &str, extension: &str) -> (files: ImageFiles)
    ensures
        files.image@ == file_stem(timestamp_ms as nat, id@) + extension@,
        files.metadata@ == file_stem(timestamp_ms as nat, id@) + "json"@,
        files.image@ == file_name(timestamp_ms as nat, id@, extension@),
        files.metadata@ == file_name(timestamp_ms as nat, id@, "json"@),
{
    let mut stem = decimal_text(timestamp_ms);
    stem.append("-");
    stem.append(file_slug(id).as_str());
    stem.append(".");
    let mut metadata = stem.clone();
    metadata.append("json");
    let mut image = stem;
    image.append(extension);
    ImageFiles { image, metadata }
}

/// The text that shows a saved image in a reply, and says where it and its
/// metadata are.
pub fn describe_saved_image(path: &str, metadata_path: Option<&str>) -> (markdown: String)
    ensures
        markdown@ == image_markdown(path@, text_of(metadata_path)),
{
    let mut markdown = "\n![Generated image](".to_owned();
    markdown.append(path);
    markdown.append(")\n\nGenerated image saved to `");
    markdown.append(path);
    markdown.append("`.");
    if let Some(metadata) = metadata_path {
        markdown.append("\nMetadata saved to `");
        markdown.append(metadata);
        markdown.append("`.");
    }
    markdown.append("\n");
    markdown
}

/// The event that announces a saved image.
pub fn announce_image<T>(
    id: &str,
    path: &str,
    metadata_path: Option<&str>,
    output_format: &str,
) -> (event: StreamEvent<T>)
    ensures
        event@ == (Event::<T>::GeneratedImage {
            id: id@,
            path: path@,
            metadata_path: text_of(metadata_path),
            output_format: output_format@,
            revised_prompt: None,
        }),
{
    let metadata_path = match metadata_path {
        Some(metadata) => Some(metadata.to_owned()),
        None => None,
    };
    StreamEvent::GeneratedImage {
        id: id.to_owned(),
        path: path.to_owned(),
        metadata_path,
        output_format: output_format.to_owned(),
        revised_prompt: None,
    }
}

/// A name keeps exactly the letters, digits, underscores and hyphens of an id, in
/// order, up to eighty of them; an id that has none is named an image.
pub proof fn law_a_slug_keeps_what_a_file_name_can_hold(id: Seq<char>, c: char)
    ensures
        file_safe(c) <==> {
            ||| 'a' <= c <= 'z'
            ||| 'A' <= c <= 'Z'
            ||| '0' <= c <= '9'
            ||| c == '_'
            ||| c == '-'
        },
        ({
            let kept = id.filter(|c: char| file_safe(c));
            &&& kept.len() == 0 ==> slug(id) == "image"@
            &&& 0 < kept.len() <= 80 ==> slug(id) == kept
            &&& kept.len() > 80 ==> slug(id) == kept.take(80)
        }),
        (forall|i: int| 0 <= i < id.len() ==> file_safe(#[trigger] id[i])) && 0 < id.len() <= 80
            ==> slug(id) == id,
{
    lemma_filter_all_or_none(id, |c: char| file_safe(c));
}

/// A stem is the time in digits, a hyphen, the slug, and a dot: two stems are
/// equal only where their times and slugs are.
pub proof fn law_a_stem_tells_time_and_slug(
    time: nat,
    id: Seq<char>,
    other_time: nat,
    other_id: Seq<char>,
)
    ensures
        file_stem(time, id) == decimal(time).push('-') + slug(id).push('.'),
        file_stem(time, id) == file_stem(other_time, other_id) <==> time == other_time && slug(id)
            == slug(other_id),
{
    reveal_strlit("-");
    reveal_strlit(".");
    let a = decimal(time).push('-') + slug(id).push('.');
    let b = decimal(other_time).push('-') + slug(other_id).push('.');
    assert(file_stem(time, id) =~= a);
    assert(file_stem(other_time, other_id) =~= b);
    if a == b {
        law_decimal_reads_back(time);
        law_decimal_reads_back(other_time);
        let m = decimal(time).len() as int;
        let n = decimal(other_time).len() as int;
        assert(a[m] == '-' && b[n] == '-');
        if m < n {
            assert(is_digit(without_plus(decimal(other_time))[m]));
        }
        if n < m {
            assert(is_digit(without_plus(decimal(time))[n]));
        }
        assert(decimal(time) =~= a.take(m));
        assert(decimal(other_time) =~= b.take(n));
        let s = a.skip(m + 1);
        assert(s =~= slug(id).push('.'));
        assert(s =~= slug(other_id).push('.'));
        assert(slug(id) =~= s.drop_last());
        assert(slug(other_id) =~= s.drop_last());
    }
}

/// A reply shows the image at its path, whole, says where it is saved, and says
/// where its metadata is where that was saved, in these words and no others.
pub proof fn law_a_reply_tells_the_whole_paths(path: Seq<char>, metadata: Seq<char>)
    ensures
        image_markdown(path, None) == "\n![Generated image]("@ + path
            + ")\n\nGenerated image saved to `"@ + path + "`."@ + "\n"@,
        image_markdown(path, Some(metadata)) == image_markdown(path, None).drop_last()
            + "\nMetadata saved to `"@ + metadata + "`."@ + "\n"@,
{
    reveal_strlit("\n");
    let shown = "\n![Generated image]("@ + path + ")\n\nGenerated image saved to `"@ + path
        + "`."@;
    assert(image_markdown(path, None).drop_last() =~= shown);
}

/// A file is named by the time in digits, a hyphen, the slug, a dot and its
/// extension, and two files of one image differ in the extension alone.
pub proof fn law_a_file_name_ends_in_its_extension(
    time: nat,
    id: Seq<char>,
    extension: Seq<char>,
    other: Seq<char>,
)
    ensures
        file_name(time, id, extension) == decimal(time).push('-') + slug(id).push('.') + extension,
        file_name(time, id, extension) == file_name(time, id, other) <==> extension == other,
{
    law_a_stem_tells_time_and_slug(time, id, time, id);
    let stem = file_stem(time, id);
    if file_name(time, id, extension) == file_name(time, id, other) {
        assert(extension =~= file_name(time, id, extension).skip(stem.len() as int));
        assert(other =~= file_name(time, id, other).skip(stem.len() as int));
    }
}

} // verus!
