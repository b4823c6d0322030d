//! Converting one image with a fixed set of encoder commands, chosen by
//! the format and the quality of the input.

use vstd::prelude::*;
use crate::cmds::{candidates, candidates_of, ImageBuffer, Source};
use crate::error::Failure;
use crate::selection::{decide, select};
use crate::text::{from_chars, push_signed_decimal, push_str, same_text, signed_decimal};
use crate::utils::ImagePath;

verus! {

/// The formats of input that can be converted.
#[derive(Clone, Copy, Debug, PartialEq, Eq, Structural)]
pub enum Format {
    Png,
    Jpeg,
    Webp,
}

/// How good a JPEG input is estimated to be.
#[derive(Clone, Copy, Debug, PartialEq, Eq, Structural)]
pub enum QualityClass {
    /// Above 98.
    High,
    /// Below 90.
    Low,
    /// Anything else, and inputs without an estimate.
    Other,
}

/// The qualities that the commands are built with.
#[derive(Debug)]
pub struct Qualities {
    /// The quantizer of `avifenc` for ordinary inputs.
    pub avif_normal: i8,
    /// The quantizer of `avifenc` for inputs of ordinary JPEG quality.
    pub avif_low: i8,
    /// The distance of `cjxl` for good inputs, as it is written in the
    /// command.
    pub cjxl_hi: String,
    /// The distance of `cjxl` for inputs of ordinary JPEG quality.
    pub cjxl_normal: String,
    /// The distance of `cjxl` for inputs of low JPEG quality.
    pub cjxl_low: String,
}

/// One encoder command: the command line, the extension of its result,
/// whether the result comes on standard output, and the tolerance.
pub type EncodeCommand = (String, String, bool, i32);

/// The text of `s` in lower case, as `str::to_lowercase` gives it.
pub uninterp spec fn lowercase(s: Seq<char>) -> Seq<char>;

/// `str::to_lowercase`: the lower-case equivalent of the string.
#[verifier::external_body]
fn to_lowercase(s: &str) -> (r: String)
    ensures
        r@ == lowercase(s@),
{
    s.to_lowercase()
}

/// The format that a lower-case extension stands for.
pub open spec fn format_of(ext: Seq<char>) -> Option<Format> {
    if ext == "png"@ {
        Some(Format::Png)
    } else if ext == "jpg"@ || ext == "jpeg"@ {
        Some(Format::Jpeg)
    } else if ext == "webp"@ {
        Some(Format::Webp)
    } else {
        None
    }
}

/// Tells the format from a lower-case extension.
pub fn format_from_extension(ext: &str) -> (r: Option<Format>)
    ensures
        r == format_of(ext@),
{
    if same_text(ext, "png") {
        Some(Format::Png)
    } else if same_text(ext, "jpg") || same_text(ext, "jpeg") {
        Some(Format::Jpeg)
    } else if same_text(ext, "webp") {
        Some(Format::Webp)
    } else {
        None
    }
}

impl Format {
    /// The format of a file, told from its extension without regard to
    /// case. A path without an extension has no format.
    pub fn from_file_format(filepath: &ImagePath) -> (r: Option<Format>)
        ensures
            r == match filepath.extension {
                Some(e) => format_of(lowercase(e@)),
                None => None,
            },
    {
        match &filepath.extension {
            Some(e) => {
                let lower = to_lowercase(e.as_str());
                format_from_extension(lower.as_str())
            },
            None => None,
        }
    }

    /// The suffix of files of this format, with the dot.
    pub fn as_ext(&self) -> (r: &'static str)
        ensures
            r@ == match self {
                Format::Png => ".png"@,
                Format::Jpeg => ".jpg"@,
                Format::Webp => ".webp"@,
            },
    {
        match self {
            Format::Png => ".png",
            Format::Jpeg => ".jpg",
            Format::Webp => ".webp",
        }
    }
}

/// The command of `cjxl` for lossless encoding with the given effort.
pub open spec fn cjxl_l_text(effort: i8) -> Seq<char> {
    "cjxl -d 0 -j 0 -e "@ + signed_decimal(effort as int) + " --patches=0"@
}

/// The command of `cjxl` for lossy encoding at the given distance.
pub open spec fn cjxl_d_text(distance: Seq<char>) -> Seq<char> {
    "cjxl -d "@ + distance + " -j 0 -e 7 --patches=0"@
}

/// The command of `cjxl` for lossless transcoding of a JPEG with the given
/// effort.
pub open spec fn cjxl_tr_text(effort: i8) -> Seq<char> {
    "cjxl -d 0 -j 1 -m 0 -e "@ + signed_decimal(effort as int)
}

/// The command of `avifenc` with the given quantizer.
pub open spec fn avifenc_q_text(quality: i8) -> Seq<char> {
    "avifenc --min 0 --max 63 -d 10 -s 4 -j 8 -a end-usage=q -a cq-level="@ + signed_decimal(
        quality as int,
    ) + " -a color:enable-chroma-deltaq=1 -a color:deltaq-mode=3 -a tune=ssim"@
}

/// The command of `cjxl` for lossless encoding with the given effort.
pub fn cjxl_l(effort: i8) -> (s: String)
    ensures
        s@ == cjxl_l_text(effort),
{
    let mut out: Vec<char> = Vec::new();
    push_str(&mut out, "cjxl -d 0 -j 0 -e ");
    push_signed_decimal(&mut out, effort as i64);
    push_str(&mut out, " --patches=0");
    assert(out@ == cjxl_l_text(effort));
    from_chars(&out)
}

/// The command of `cjxl` for lossy encoding at the distance that
/// `distance` holds in writing.
pub fn cjxl_d(distance: &str) -> (s: String)
    ensures
        s@ == cjxl_d_text(distance@),
{
    let mut out: Vec<char> = Vec::new();
    push_str(&mut out, "cjxl -d ");
    push_str(&mut out, distance);
    push_str(&mut out, " -j 0 -e 7 --patches=0");
    assert(out@ == cjxl_d_text(distance@));
    from_chars(&out)
}

/// The command of `cjxl` for lossless transcoding of a JPEG with the given
/// effort.
pub fn cjxl_tr(effort: i8) -> (s: String)
    ensures
        s@ == cjxl_tr_text(effort),
{
    let mut out: Vec<char> = Vec::new();
    push_str(&mut out, "cjxl -d 0 -j 1 -m 0 -e ");
    push_signed_decimal(&mut out, effort as i64);
    assert(out@ == cjxl_tr_text(effort));
    from_chars(&out)
}

/// The command of `avifenc` with the given quantizer.
pub fn avifenc_q(quality: i8) -> (s: String)
    ensures
        s@ == avifenc_q_text(quality),
{
    let mut out: Vec<char> = Vec::new();
    push_str(&mut out, "avifenc --min 0 --max 63 -d 10 -s 4 -j 8 -a end-usage=q -a cq-level=");
    push_signed_decimal(&mut out, quality as i64);
    push_str(&mut out, " -a color:enable-chroma-deltaq=1 -a color:deltaq-mode=3 -a tune=ssim");
    assert(out@ == avifenc_q_text(quality));
    from_chars(&out)
}

/// A command as plain values.
pub open spec fn command_view(c: EncodeCommand) -> (Seq<char>, Seq<char>, bool, i32) {
    (c.0@, c.1@, c.2, c.3)
}

/// The commands as plain values, in order.
pub open spec fn command_views(cs: Seq<EncodeCommand>) -> Seq<(Seq<char>, Seq<char>, bool, i32)> {
    Seq::new(cs.len(), |i: int| command_view(cs[i]))
}

/// A command of `cjxl` with its tolerance.
pub open spec fn jxl(cmd: Seq<char>, tolerance: i32) -> (Seq<char>, Seq<char>, bool, i32) {
    (cmd, "jxl"@, false, tolerance)
}

/// A command of `avifenc` with its tolerance.
pub open spec fn avif(cmd: Seq<char>, tolerance: i32) -> (Seq<char>, Seq<char>, bool, i32) {
    (cmd, "avif"@, false, tolerance)
}

/// The commands to try on an input, in the order in which they are judged.
///
/// A PNG is encoded without loss and, under a lower tolerance, with loss.
/// A JPEG is transcoded without loss first; what follows depends on its
/// estimated quality.
pub open spec fn encode_settings(
    format: Format,
    use_avif: bool,
    quality: QualityClass,
    q: Qualities,
) -> Seq<(Seq<char>, Seq<char>, bool, i32)> {
    match format {
        Format::Png => if use_avif {
            seq![jxl(cjxl_l_text(9), 100), avif(avifenc_q_text(q.avif_normal), 35)]
        } else {
            seq![jxl(cjxl_l_text(9), 100), jxl(cjxl_d_text(q.cjxl_hi@), 45)]
        },
        _ => match quality {
            QualityClass::High => if use_avif {
                seq![jxl(cjxl_tr_text(7), 100), avif(avifenc_q_text(q.avif_normal), 42)]
            } else {
                seq![
                    jxl(cjxl_tr_text(7), 100),
                    jxl(cjxl_l_text(9), 95),
                    jxl(cjxl_d_text(q.cjxl_hi@), 50),
                ]
            },
            QualityClass::Low => seq![
                jxl(cjxl_tr_text(9), 100),
                jxl(cjxl_d_text(q.cjxl_low@), 30),
            ],
            QualityClass::Other => if use_avif {
                seq![jxl(cjxl_tr_text(7), 100), avif(avifenc_q_text(q.avif_low), 42)]
            } else {
                seq![
                    jxl(cjxl_tr_text(7), 100),
                    jxl(cjxl_l_text(9), 95),
                    jxl(cjxl_d_text(q.cjxl_normal@), 50),
                ]
            },
        },
    }
}

fn jxl_command(cmd: String, tolerance: i32) -> (c: EncodeCommand)
    ensures
        command_view(c) == jxl(cmd@, tolerance),
{
    (cmd, "jxl".to_owned(), false, tolerance)
}

fn avif_command(cmd: String, tolerance: i32) -> (c: EncodeCommand)
    ensures
        command_view(c) == avif(cmd@, tolerance),
{
    (cmd, "avif".to_owned(), false, tolerance)
}

fn two(a: EncodeCommand, b: EncodeCommand) -> (v: Vec<EncodeCommand>)
    ensures
        command_views(v@) == seq![command_view(a), command_view(b)],
{
    let mut v: Vec<EncodeCommand> = Vec::new();
    v.push(a);
    v.push(b);
    assert(command_views(v@) == seq![command_view(a), command_view(b)]);
    v
}

fn three(a: EncodeCommand, b: EncodeCommand, c: EncodeCommand) -> (v: Vec<EncodeCommand>)
    ensures
        command_views(v@) == seq![command_view(a), command_view(b), command_view(c)],
{
    let mut v: Vec<EncodeCommand> = Vec::new();
    v.push(a);
    v.push(b);
    v.push(c);
    assert(command_views(v@) == seq![command_view(a), command_view(b), command_view(c)]);
    v
}

/// The commands to try on an input of the given format and quality.
///
/// There are none yet for WebP input.
pub fn get_encode_settings(
    format: Format,
    use_avif: bool,
    jpg_quality: QualityClass,
    q: &Qualities,
) -> (v: Vec<EncodeCommand>)
    requires
        format !is Webp,
    ensures
        command_views(v@) == encode_settings(format, use_avif, jpg_quality, *q),
{
    match format {
        Format::Png => if use_avif {
            two(jxl_command(cjxl_l(9), 100), avif_command(avifenc_q(q.avif_normal), 35))
        } else {
            two(jxl_command(cjxl_l(9), 100), jxl_command(cjxl_d(q.cjxl_hi.as_str()), 45))
        },
        _ => match jpg_quality {
            QualityClass::High => if use_avif {
                two(jxl_command(cjxl_tr(7), 100), avif_command(avifenc_q(q.avif_normal), 42))
            } else {
                three(
                    jxl_command(cjxl_tr(7), 100),
                    jxl_command(cjxl_l(9), 95),
                    jxl_command(cjxl_d(q.cjxl_hi.as_str()), 50),
                )
            },
            QualityClass::Low => two(
                jxl_command(cjxl_tr(9), 100),
                jxl_command(cjxl_d(q.cjxl_low.as_str()), 30),
            ),
            QualityClass::Other => if use_avif {
                two(jxl_command(cjxl_tr(7), 100), avif_command(avifenc_q(q.avif_low), 42))
            } else {
                three(
                    jxl_command(cjxl_tr(7), 100),
                    jxl_command(cjxl_l(9), 95),
                    jxl_command(cjxl_d(q.cjxl_normal.as_str()), 50),
                )
            },
        },
    }
}

/// The tolerances of the commands, in order.
pub open spec fn tolerances_of(cmds: Seq<EncodeCommand>) -> Seq<i32> {
    Seq::new(cmds.len(), |i: int| cmds[i].3)
}

fn tolerances(cmds: &Vec<EncodeCommand>) -> (t: Vec<i32>)
    ensures
        t@ == tolerances_of(cmds@),
{
    let mut t: Vec<i32> = Vec::new();
    let mut i: usize = 0;
    while i < cmds.len()
        invariant
            i <= cmds.len(),
            t@ == tolerances_of(cmds@).take(i as int),
        decreases cmds.len() - i,
    {
        t.push(cmds[i].3);
        i += 1;
    }
    t
}

/// Picks the best of the results of `cmds` on an input of `img_filesize`
/// bytes, and says where the bytes to write come from and which extension
/// they get.
///
/// The results are judged in order, each against the best so far under the
/// tolerance of its command. Where one wins, it is the last winner with
/// its own extension; where none does, it is the input, with `copy` in
/// place of an extension.
///
/// Fails with `Failure::Config` unless there is one result for each
/// command.
pub fn encode_and_get_best(
    img_filesize: usize,
    cmds: &Vec<EncodeCommand>,
    enc_img_buffers: &Vec<ImageBuffer>,
) -> (r: Result<(Source, String), Failure>)
    ensures
        match r {
            Ok((source, ext)) => {
                &&& cmds.len() == enc_img_buffers.len()
                &&& match decide(
                    candidates_of(enc_img_buffers@),
                    tolerances_of(cmds@),
                    img_filesize,
                    false,
                ).winner {
                    Some(w) => source == Source::Candidate(w) && w < enc_img_buffers.len()
                        && ext@ == enc_img_buffers[w as int].extension@,
                    None => source == Source::Input && ext@ == "copy"@,
                }
            },
            Err(e) => e is Config && cmds.len() != enc_img_buffers.len(),
        },
{
    let cs = candidates(enc_img_buffers);
    let tols = tolerances(cmds);
    let best = match select(&cs, &tols, img_filesize) {
        Some(b) => b,
        None => {
            return Err(Failure::Config);
        },
    };
    proof {
        crate::selection::lemma_winner_was_better(
            cs@,
            tols@,
            img_filesize,
            cs.len() as int,
        );
    }
    match best.winner {
        Some(w) => Ok((Source::Candidate(w), enc_img_buffers[w].extension.clone())),
        None => Ok((Source::Input, "copy".to_owned())),
    }
}

/// Whether an image of the given width and height is scaled down to
/// `resize` before it is encoded: where scaling is asked for, the image
/// is larger than `resize` by more than a hundredth in one direction, and
/// its quality is high enough to be worth it.
pub open spec fn resize_wanted(resize: u32, width: u32, height: u32, good_quality: bool) -> bool {
    let limit = resize + resize / 100;
    resize != 0 && (width > limit || height > limit) && good_quality
}

/// Whether the image is scaled down before it is encoded.
pub fn needs_resize(resize: u32, width: u32, height: u32, good_quality: bool) -> (r: bool)
    ensures
        r == resize_wanted(resize, width, height, good_quality),
{
    let limit: u64 = resize as u64 + (resize / 100) as u64;
    resize != 0 && (width as u64 > limit || height as u64 > limit) && good_quality
}

/// The name under which the input is kept when it is moved out of the
/// way: its stem, `-bak.`, and its extension.
pub open spec fn backup_name_of(stem: Seq<char>, extension: Seq<char>) -> Seq<char> {
    stem + "-bak."@ + extension
}

/// The name under which the input is kept when it is moved out of the
/// way, where its path has both a stem and an extension.
pub fn backup_name(path: &ImagePath) -> (r: Option<String>)
    ensures
        match r {
            Some(name) => path.file_stem matches Some(stem) && path.extension matches Some(ext)
                && name@ == backup_name_of(stem@, ext@),
            None => path.file_stem is None || path.extension is None,
        },
{
    match (&path.file_stem, &path.extension) {
        (Some(stem), Some(ext)) => {
            let mut out: Vec<char> = Vec::new();
            push_str(&mut out, stem.as_str());
            push_str(&mut out, "-bak.");
            push_str(&mut out, ext.as_str());
            Some(from_chars(&out))
        },
        _ => None,
    }
}

} // verus!
