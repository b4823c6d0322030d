//! Input paths and the choice of the files that count as images.

use vstd::prelude::*;
use crate::text::same_text;

verus! {

/// A path to an input file, with the parts of it that the library reads.
/// `None` stands for a part that the path does not have, or that is not
/// valid text.
#[derive(Debug)]
pub struct ImagePath {
    /// The whole path, as it is shown to the user.
    pub path: String,
    /// The last component of the path.
    pub file_name: Option<String>,
    /// The last component without its extension.
    pub file_stem: Option<String>,
    /// The extension of the last component, without the dot.
    pub extension: Option<String>,
}

/// Whether `ext` is one of the extensions of the image formats that are
/// taken from a directory.
pub open spec fn is_image_extension(ext: Seq<char>) -> bool {
    ext == "png"@ || ext == "jpg"@ || ext == "jxl"@ || ext == "avif"@ || ext == "webp"@
}

/// Whether a path with this extension is taken as an image.
pub open spec fn is_image(extension: Option<String>) -> bool {
    extension matches Some(e) && is_image_extension(e@)
}

/// Whether `path` has the extension of one of the image formats.
pub fn has_image_extension(path: &ImagePath) -> (r: bool)
    ensures
        r == is_image(path.extension),
{
    match &path.extension {
        None => false,
        Some(e) => {
            same_text(e.as_str(), "png") || same_text(e.as_str(), "jpg") || same_text(
                e.as_str(),
                "jxl",
            ) || same_text(e.as_str(), "avif") || same_text(e.as_str(), "webp")
        },
    }
}

/// The paths of `input` that are images, in their order.
pub open spec fn images_of(input: Seq<ImagePath>) -> Seq<ImagePath> {
    input.filter(|p: ImagePath| is_image(p.extension))
}

/// Keeps the paths whose extension is that of an image format, in order.
pub fn filter_images(input: &mut Vec<ImagePath>)
    ensures
        final(input)@ == images_of(old(input)@),
{
    let mut all: Vec<ImagePath> = Vec::new();
    std::mem::swap(input, &mut all);
    let ghost src = all@;
    let mut kept: Vec<ImagePath> = Vec::new();
    proof {
        reveal(Seq::filter);
        assert(src.take(0) == Seq::<ImagePath>::empty());
    }
    for p in it: all.into_iter()
        invariant
            it.seq() == src,
            kept@ == images_of(src.take(it.index() as int)),
    {
        proof {
            reveal(Seq::filter);
            let upto = src.take(it.index() + 1);
            assert(upto.drop_last() == src.take(it.index() as int));
            assert(upto.last() == p);
        }
        if has_image_extension(&p) {
            kept.push(p);
        }
    }
    proof {
        assert(src.take(src.len() as int) == src);
    }
    *input = kept;
}

/// Whether `ext` is one of the extensions of the formats that are taken
/// as input for a video.
pub open spec fn is_input_extension(ext: Seq<char>) -> bool {
    ext == "png"@ || ext == "jpg"@ || ext == "webp"@
}

/// Whether a path with this extension is taken as input for a video.
pub open spec fn is_input(extension: Option<String>) -> bool {
    extension matches Some(e) && is_input_extension(e@)
}

/// The paths of `input` that are taken as input for a video, in order.
pub open spec fn inputs_of(input: Seq<ImagePath>) -> Seq<ImagePath> {
    input.filter(|p: ImagePath| is_input(p.extension))
}

fn has_input_extension(path: &ImagePath) -> (r: bool)
    ensures
        r == is_input(path.extension),
{
    match &path.extension {
        None => false,
        Some(e) => {
            same_text(e.as_str(), "png") || same_text(e.as_str(), "jpg") || same_text(
                e.as_str(),
                "webp",
            )
        },
    }
}

/// Keeps the paths whose extension is `png`, `jpg` or `webp`, in order.
pub fn input_filter_images(input: &mut Vec<ImagePath>)
    ensures
        final(input)@ == inputs_of(old(input)@),
{
    let mut all: Vec<ImagePath> = Vec::new();
    std::mem::swap(input, &mut all);
    let ghost src = all@;
    let mut kept: Vec<ImagePath> = Vec::new();
    proof {
        reveal(Seq::filter);
        assert(src.take(0) == Seq::<ImagePath>::empty());
    }
    for p in it: all.into_iter()
        invariant
            it.seq() == src,
            kept@ == inputs_of(src.take(it.index() as int)),
    {
        proof {
            reveal(Seq::filter);
            let upto = src.take(it.index() + 1);
            assert(upto.drop_last() == src.take(it.index() as int));
            assert(upto.last() == p);
        }
        if has_input_extension(&p) {
            kept.push(p);
        }
    }
    proof {
        assert(src.take(src.len() as int) == src);
    }
    *input = kept;
}

/// Puts the entries of the working directory in the place of the first
/// path of `input`, which stood for them: the entries follow the other
/// paths, and the first path is taken out.
pub fn input_get_from_cwd(input: &mut Vec<ImagePath>, entries: Vec<ImagePath>)
    requires
        old(input).len() + entries.len() > 0,
    ensures
        final(input)@ == (old(input)@ + entries@).skip(1),
{
    let ghost given = entries@;
    let mut rest = entries;
    input.append(&mut rest);
    let _ = input.remove(0);
    assert(input@ == (old(input)@ + given).skip(1));
}

/// Whether the paths on the command line stand for the images of the
/// working directory: the first of them is `./*`.
pub fn input_is_cwd(input: &Vec<ImagePath>) -> (r: bool)
    requires
        input.len() > 0,
    ensures
        r == (input[0].path@ == "./*"@),
{
    same_text(input[0].path.as_str(), "./*")
}

} // verus!
