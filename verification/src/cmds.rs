//! Encoding one image with several commands and keeping the best result.
//!
//! The commands themselves are run elsewhere. This module says which
//! program to start with which arguments, takes what the program left
//! behind, and decides from the sizes of all results what is written where
//! and what goes into the results table.

use vstd::prelude::*;
use crate::error::Failure;
use crate::preset::{
    find_preset, parse_candidate, preset_key, refers_past, resolve, substitute, token_args,
    token_name, Settings,
};
use crate::selection::{decide, evaluate, select, verdict_at, Candidate, Decision, Verdict};
use crate::text::{
    decimal, decimal_string, from_chars, push_decimal, push_str, rows, split_words, texts,
    to_chars, words,
};
use crate::utils::ImagePath;

verus! {

/// The options of a run.
#[derive(Debug)]
pub struct Opt {
    /// The input images.
    pub input: Vec<ImagePath>,
    /// The directory that receives the results.
    pub out_dir: String,
    /// The candidates: a preset's name, with arguments in parentheses.
    pub cmds: Vec<String>,
    /// Where the presets are read from, if not from the default place.
    pub cmds_config_json: Option<String>,
    /// The tolerances in percent: one for all candidates or one for each.
    pub tolerance: Vec<u16>,
    /// Whether every result is saved, not only the best one.
    pub save_all: bool,
    /// Whether the progress lines are left out.
    pub no_progress: bool,
    /// Whether a row is added to the results table for each image.
    pub csv_save: bool,
    /// The file of the results table.
    pub csv_path: String,
    /// How many images are processed at a time.
    pub nproc: usize,
    /// How many commands run at a time for one image.
    pub nproc_cmd: Option<usize>,
}

/// The result of one command on one image.
#[derive(Debug)]
pub struct ImageBuffer {
    /// The encoded image.
    pub image: Vec<u8>,
    /// The command line of the encoder.
    pub encoder: String,
    /// Whether the image is taken from standard output rather than from a
    /// temporary file.
    pub output_from_stdout: bool,
    /// The extension of the resulting file, without the dot.
    pub extension: String,
    /// How long the command took, in nanoseconds.
    pub duration_nanos: u128,
    /// Whether the command could not be built or did not succeed.
    pub failed: bool,
}

/// Where the bytes of an output file come from.
#[derive(Clone, Copy, Debug, PartialEq, Eq, Structural)]
pub enum Source {
    /// The input file, unchanged.
    Input,
    /// The image of the candidate with this index.
    Candidate(usize),
}

/// A file to write into the output directory.
#[derive(Debug)]
pub struct OutputFile {
    pub name: String,
    pub source: Source,
}

/// Everything that follows from the results of one image.
#[derive(Debug)]
pub struct ImageReport {
    /// What is kept.
    pub decision: Decision,
    /// What is counted as the winner in the statistics: the winner's
    /// command, `Copy input`, or nothing where every result is saved.
    pub winner: String,
    /// The files to write, in order.
    pub files: Vec<OutputFile>,
    /// The row for the results table, where one is asked for.
    pub csv_row: Option<Vec<String>>,
    /// How each candidate fared, for the progress lines.
    pub verdicts: Vec<Verdict>,
}

/// Where the encoder leaves the image.
#[derive(Debug)]
pub enum OutputSink {
    /// On its standard output.
    Stdout,
    /// In a temporary file whose name ends with this suffix, and whose path
    /// is handed to the encoder as its last argument.
    TempFile(String),
}

/// A program to start for one candidate on one image.
#[derive(Debug)]
pub struct Invocation {
    /// The program.
    pub program: String,
    /// Its arguments, but for the path of the temporary file.
    pub args: Vec<String>,
    /// Where the image is found afterwards.
    pub sink: OutputSink,
}

/// What a program left behind.
#[derive(Debug)]
pub struct RunOutput {
    /// Whether the program ended with the status of success.
    pub success: bool,
    /// What it wrote to standard output.
    pub stdout: Vec<u8>,
    /// What it wrote to standard error.
    pub stderr: Vec<u8>,
    /// What it wrote to the temporary file, where it was given one.
    pub file: Vec<u8>,
}

/// Whether `inv` starts the command of `b` on the image at `img_path`.
///
/// The first word of the command is the program and the other words are
/// its arguments. An encoder that writes to standard output gets the
/// image's path after them. Any other gets it before them, and is to get
/// the path of a temporary file after them, whose name ends with a dot and
/// the extension.
pub open spec fn invocation_of(inv: Invocation, b: ImageBuffer, img_path: Seq<char>) -> bool {
    let w = words(b.encoder@);
    &&& w.len() > 0
    &&& inv.program@ == w[0]
    &&& if b.output_from_stdout {
        inv.sink is Stdout && texts(inv.args@) == w.skip(1).push(img_path)
    } else {
        &&& inv.sink matches OutputSink::TempFile(suffix)
        &&& suffix@ == seq!['.'] + b.extension@
        &&& texts(inv.args@) == seq![img_path] + w.skip(1)
    }
}

/// What the encoder wrote, for the log: its standard error, a line feed,
/// its standard output.
pub open spec fn diagnostics(stderr: Seq<u8>, stdout: Seq<u8>) -> Seq<u8> {
    stderr + seq![10u8] + stdout
}

/// What the selection reads of a result.
pub open spec fn candidate_of(b: ImageBuffer) -> Candidate {
    Candidate { size: b.image.len(), failed: b.failed }
}

/// What the selection reads of each result, in order.
pub open spec fn candidates_of(bs: Seq<ImageBuffer>) -> Seq<Candidate> {
    Seq::new(bs.len(), |i: int| candidate_of(bs[i]))
}

/// The tolerances for `n` candidates: those given if there are `n` of them,
/// a single one for all, and none otherwise.
pub open spec fn broadcast(tolerance: Seq<u16>, n: nat) -> Option<Seq<u16>> {
    if tolerance.len() == n {
        Some(tolerance)
    } else if tolerance.len() == 1 {
        Some(Seq::new(n, |i: int| tolerance[0]))
    } else {
        None
    }
}

/// The same tolerances in the type that the selection takes.
pub open spec fn widened(tolerance: Seq<u16>) -> Seq<i32> {
    Seq::new(tolerance.len(), |i: int| tolerance[i] as i32)
}

/// A result is written out where every result is saved unless it failed
/// or is empty.
pub open spec fn saved(c: Candidate) -> bool {
    !c.failed && c.size != 0
}

/// The name of the file for candidate `i` where every result is saved.
pub open spec fn numbered_name(stem: Seq<char>, i: nat, ext: Seq<char>) -> Seq<char> {
    stem + seq!['_'] + decimal(i) + seq!['.'] + ext
}

/// The name of the file for the winner.
pub open spec fn plain_name(stem: Seq<char>, ext: Seq<char>) -> Seq<char> {
    stem + seq!['.'] + ext
}

/// A file to write, as its name and the source of its bytes.
pub open spec fn file_view(f: OutputFile) -> (Seq<char>, Source) {
    (f.name@, f.source)
}

/// The files to write, each as its name and the source of its bytes.
pub open spec fn file_views(fs: Seq<OutputFile>) -> Seq<(Seq<char>, Source)> {
    Seq::new(fs.len(), |i: int| file_view(fs[i]))
}

/// The files for the first `n` results where every result is saved: one
/// for each result that is neither failed nor empty, numbered by the
/// result's index.
pub open spec fn all_files(stem: Seq<char>, bs: Seq<ImageBuffer>, n: int) -> Seq<
    (Seq<char>, Source),
>
    decreases n,
{
    if n <= 0 {
        Seq::empty()
    } else {
        let before = all_files(stem, bs, n - 1);
        if saved(candidate_of(bs[n - 1])) {
            before.push(
                (
                    numbered_name(stem, (n - 1) as nat, bs[n - 1].extension@),
                    Source::Candidate((n - 1) as usize),
                ),
            )
        } else {
            before
        }
    }
}

/// Whether one of the first `n` results is written out where every result
/// is saved.
pub open spec fn any_saved(bs: Seq<ImageBuffer>, n: int) -> bool {
    exists|i: int| 0 <= i < n && saved(candidate_of(#[trigger] bs[i]))
}

/// The files to write for one image, or `None` where the path of the image
/// lacks the part that a file's name is made of.
///
/// Where every result is saved, they are the numbered files. Otherwise it
/// is one file: the winner under the image's stem and the winner's
/// extension, or the input under its own name.
pub open spec fn output_files(
    img: ImagePath,
    bs: Seq<ImageBuffer>,
    tols: Seq<i32>,
    original: usize,
    save_all: bool,
) -> Option<Seq<(Seq<char>, Source)>> {
    if save_all {
        if !any_saved(bs, bs.len() as int) {
            Some(Seq::empty())
        } else {
            match img.file_stem {
                Some(stem) => Some(all_files(stem@, bs, bs.len() as int)),
                None => None,
            }
        }
    } else {
        match decide(candidates_of(bs), tols, original, false).winner {
            Some(w) => match img.file_stem {
                Some(stem) => Some(
                    seq![(plain_name(stem@, bs[w as int].extension@), Source::Candidate(w))],
                ),
                None => None,
            },
            None => match img.file_name {
                Some(name) => Some(seq![(name@, Source::Input)]),
                None => None,
            },
        }
    }
}

/// What is counted as the winner in the statistics.
pub open spec fn winner_text(bs: Seq<ImageBuffer>, d: Decision) -> Seq<char> {
    match d.winner {
        Some(w) => bs[w as int].encoder@,
        None => if d.copied_input {
            "Copy input"@
        } else {
            Seq::empty()
        },
    }
}

/// The size column of a candidate: empty for a failed or empty result.
pub open spec fn size_column(c: Candidate) -> Seq<char> {
    if saved(c) {
        decimal(c.size as nat)
    } else {
        Seq::empty()
    }
}

/// The percentage column of a candidate: empty for a failed or empty
/// result, and where there is no percentage.
pub open spec fn percent_column(c: Candidate, v: Verdict) -> Seq<char> {
    match v.percent {
        Some(p) => if saved(c) {
            decimal(p as nat)
        } else {
            Seq::empty()
        },
        None => Seq::empty(),
    }
}

/// The size columns of all candidates.
pub open spec fn size_columns(cs: Seq<Candidate>) -> Seq<Seq<char>> {
    Seq::new(cs.len(), |i: int| size_column(cs[i]))
}

/// The percentage columns of all candidates.
pub open spec fn percent_columns(cs: Seq<Candidate>, vs: Seq<Verdict>) -> Seq<Seq<char>> {
    Seq::new(cs.len(), |i: int| percent_column(cs[i], vs[i]))
}

/// The row of one image in the results table: the image's path, its size,
/// then one size column for each candidate, then one percentage column for
/// each candidate.
pub open spec fn csv_row(
    path: Seq<char>,
    original: usize,
    cs: Seq<Candidate>,
    vs: Seq<Verdict>,
) -> Seq<Seq<char>> {
    seq![path, decimal(original as nat)] + size_columns(cs) + percent_columns(cs, vs)
}

/// The verdicts on all candidates of one image. The winners are chained
/// unless every result is saved.
pub open spec fn verdicts_of(
    cs: Seq<Candidate>,
    tols: Seq<i32>,
    original: usize,
    save_all: bool,
) -> Seq<Verdict> {
    Seq::new(cs.len(), |i: int| verdict_at(cs, tols, original, !save_all, i))
}

/// Whether a report says what follows from the results `bs` of the image
/// `img`, whose file has `original` bytes, under the tolerances `tols`.
pub open spec fn report_matches(
    report: ImageReport,
    img: ImagePath,
    original: usize,
    bs: Seq<ImageBuffer>,
    tols: Seq<i32>,
    save_all: bool,
    csv_save: bool,
) -> bool {
    let cs = candidates_of(bs);
    let vs = verdicts_of(cs, tols, original, save_all);
    &&& report.decision == decide(cs, tols, original, save_all)
    &&& report.verdicts@ == vs
    &&& report.winner@ == winner_text(bs, report.decision)
    &&& Some(file_views(report.files@)) == output_files(img, bs, tols, original, save_all)
    &&& match report.csv_row {
        Some(row) => csv_save && texts(row@) == csv_row(img.path@, original, cs, vs),
        None => !csv_save,
    }
}

/// A row of the results table has two columns and two more for each
/// candidate, whatever the candidates' results are.
pub proof fn lemma_csv_row_width(
    path: Seq<char>,
    original: usize,
    cs: Seq<Candidate>,
    vs: Seq<Verdict>,
)
    ensures
        csv_row(path, original, cs, vs).len() == 2 + 2 * cs.len(),
{
}

/// A failed or empty result has an empty size column and an empty
/// percentage column.
pub proof fn lemma_unusable_columns_empty(
    path: Seq<char>,
    original: usize,
    cs: Seq<Candidate>,
    vs: Seq<Verdict>,
    i: int,
)
    requires
        0 <= i < cs.len(),
        cs[i].failed || cs[i].size == 0,
    ensures
        csv_row(path, original, cs, vs)[2 + i].len() == 0,
        csv_row(path, original, cs, vs)[2 + cs.len() + i].len() == 0,
{
}

/// Where no result is smaller than the input and not every result is
/// saved, the input is kept: the one file to write is the input itself
/// under its own name, and nothing is written where the path has no name.
pub proof fn lemma_fallback_copies_input(
    img: ImagePath,
    bs: Seq<ImageBuffer>,
    tols: Seq<i32>,
    original: usize,
)
    requires
        bs.len() == tols.len(),
        bs.len() <= usize::MAX,
        forall|i: int| 0 <= i < bs.len() ==> (#[trigger] bs[i]).image.len() >= original,
    ensures
        decide(candidates_of(bs), tols, original, false).copied_input,
        decide(candidates_of(bs), tols, original, false).winner is None,
        output_files(img, bs, tols, original, false) == match img.file_name {
            Some(name) => Some(seq![(name@, Source::Input)]),
            None => None,
        },
        winner_text(bs, decide(candidates_of(bs), tols, original, false)) == "Copy input"@,
{
    crate::selection::lemma_fallback_keeps_input(candidates_of(bs), tols, original);
}

impl Default for ImageBuffer {
    fn default() -> (b: ImageBuffer)
        ensures
            b.image@.len() == 0,
            b.encoder@.len() == 0,
            b.extension@.len() == 0,
            !b.output_from_stdout,
            b.duration_nanos == 0,
            !b.failed,
    {
        ImageBuffer {
            image: Vec::new(),
            encoder: String::new(),
            output_from_stdout: false,
            extension: String::new(),
            duration_nanos: 0,
            failed: false,
        }
    }
}

impl ImageBuffer {
    /// A result that is still to be produced by the command `encoder`.
    pub fn new(encoder: &str, extension: &str, output_from_stdout: bool) -> (b: ImageBuffer)
        ensures
            b.encoder@ == encoder@,
            b.extension@ == extension@,
            b.output_from_stdout == output_from_stdout,
            b.image@.len() == 0,
            b.duration_nanos == 0,
            !b.failed,
    {
        ImageBuffer {
            image: Vec::new(),
            encoder: encoder.to_owned(),
            output_from_stdout,
            extension: extension.to_owned(),
            duration_nanos: 0,
            failed: false,
        }
    }

    /// The result of a candidate that could not be turned into a command.
    pub fn unresolved(cmd: &str) -> (b: ImageBuffer)
        ensures
            b.encoder@ == cmd@,
            b.extension@.len() == 0,
            !b.output_from_stdout,
            b.image@.len() == 0,
            b.duration_nanos == 0,
            b.failed,
    {
        ImageBuffer {
            image: Vec::new(),
            encoder: cmd.to_owned(),
            output_from_stdout: false,
            extension: String::new(),
            duration_nanos: 0,
            failed: true,
        }
    }

    /// The result, still to be produced, of the candidate `cmd` under the
    /// presets of `settings`.
    ///
    /// Fails with `Failure::UnknownPreset` where the catalog has no preset
    /// of the candidate's name. Fails with `Failure::SpecParse` where it
    /// has one and the candidate opens a parenthesis without ending with a
    /// closing one, or the preset's template holds a placeholder for which
    /// the candidate has no argument.
    pub fn new_from_setting(cmd: &str, settings: &Settings) -> (r: Result<ImageBuffer, Failure>)
        ensures
            match find_preset(settings.presets@, token_name(cmd@)) {
                None => r matches Err(e) && e is UnknownPreset,
                Some(setting) => match token_args(cmd@) {
                    None => r matches Err(e) && e is SpecParse,
                    Some(args) => if refers_past(setting.encode@, args.len()) {
                        r matches Err(e) && e is SpecParse
                    } else {
                        &&& r matches Ok(b)
                        &&& b.encoder@ == substitute(setting.encode@, args, args.len() as int)
                        &&& b.extension@ == setting.ext@
                        &&& b.output_from_stdout == (setting.output_from_stdout is Some)
                        &&& b.image@.len() == 0
                        &&& b.duration_nanos == 0
                        &&& !b.failed
                    },
                },
            },
    {
        let key = preset_key(cmd);
        if settings.get(key.as_str()).is_none() {
            return Err(Failure::UnknownPreset);
        }
        let spec = match parse_candidate(cmd) {
            Ok(s) => s,
            Err(e) => {
                return Err(e);
            },
        };
        match resolve(&spec, settings) {
            Ok(command) => Ok(
                ImageBuffer {
                    image: Vec::new(),
                    encoder: command.encoder,
                    output_from_stdout: command.output_from_stdout,
                    extension: command.extension,
                    duration_nanos: 0,
                    failed: false,
                },
            ),
            Err(e) => Err(e),
        }
    }

    /// The program to start for this result on the image at `img_path`.
    ///
    /// Fails with `Failure::SpecParse` exactly where the command holds no
    /// word.
    pub fn gen_from_cmd(&self, img_path: &str) -> (r: Result<Invocation, Failure>)
        ensures
            match r {
                Ok(inv) => invocation_of(inv, *self, img_path@),
                Err(e) => e is SpecParse && words(self.encoder@).len() == 0,
            },
    {
        let chars = to_chars(self.encoder.as_str());
        let parts = split_words(&chars);
        if parts.len() == 0 {
            assert(rows(parts@).len() == 0);
            return Err(Failure::SpecParse);
        }
        let ghost w = words(self.encoder@);
        assert(w.len() == parts.len());
        assert(w[0] == parts@[0]@);
        let program = from_chars(&parts[0]);
        let mut args: Vec<String> = Vec::new();
        if !self.output_from_stdout {
            args.push(img_path.to_owned());
        }
        let ghost head = texts(args@);
        assert(head + w.skip(1).take(0) == head);
        let mut i: usize = 1;
        while i < parts.len()
            invariant
                1 <= i <= parts.len(),
                w == rows(parts@),
                texts(args@) == head + w.skip(1).take(i - 1),
            decreases parts.len() - i,
        {
            let ghost before = texts(args@);
            args.push(from_chars(&parts[i]));
            assert(texts(args@) == before.push(parts@[i as int]@));
            assert(w.skip(1).take(i as int) == w.skip(1).take(i - 1).push(w[i as int]));
            i += 1;
        }
        assert(w.skip(1).take(parts.len() - 1) == w.skip(1));
        if self.output_from_stdout {
            let ghost before = texts(args@);
            args.push(img_path.to_owned());
            assert(texts(args@) == before.push(img_path@));
            assert(head == Seq::<Seq<char>>::empty());
            assert(head + w.skip(1) == w.skip(1));
            Ok(Invocation { program, args, sink: OutputSink::Stdout })
        } else {
            assert(head == seq![img_path@]);
            let mut suffix: Vec<char> = Vec::new();
            suffix.push('.');
            push_str(&mut suffix, self.extension.as_str());
            Ok(Invocation { program, args, sink: OutputSink::TempFile(from_chars(&suffix)) })
        }
    }

    /// Takes what the encoder left behind after `elapsed_nanos`
    /// nanoseconds.
    ///
    /// Where the encoder succeeded, the image is what it wrote to standard
    /// output or to the temporary file, as the command has it, and the
    /// duration is the time that it took. Where it did not, the result is
    /// marked as failed, image and duration stay as they were, and the
    /// error carries both output streams.
    pub fn image_generate(&mut self, output: RunOutput, elapsed_nanos: u128) -> (r: Result<
        (),
        Failure,
    >)
        ensures
            final(self).encoder == old(self).encoder,
            final(self).extension == old(self).extension,
            final(self).output_from_stdout == old(self).output_from_stdout,
            final(self).failed == !output.success,
            match r {
                Ok(_) => {
                    &&& output.success
                    &&& final(self).duration_nanos == elapsed_nanos
                    &&& final(self).image@ == if old(self).output_from_stdout {
                        output.stdout@
                    } else {
                        output.file@
                    }
                },
                Err(e) => {
                    &&& !output.success
                    &&& final(self).duration_nanos == old(self).duration_nanos
                    &&& final(self).image == old(self).image
                    &&& e matches Failure::EncoderProcess { stderr, stdout }
                    &&& stderr@ == output.stderr@
                    &&& stdout@ == output.stdout@
                },
            },
    {
        if output.success {
            self.duration_nanos = elapsed_nanos;
            self.failed = false;
            self.image = if self.output_from_stdout {
                output.stdout
            } else {
                output.file
            };
            Ok(())
        } else {
            self.failed = true;
            Err(Failure::EncoderProcess { stderr: output.stderr, stdout: output.stdout })
        }
    }

    /// The size of the encoded image in bytes.
    pub fn get_size(&self) -> (n: usize)
        ensures
            n == self.image@.len(),
    {
        self.image.len()
    }

    /// The command line of the encoder.
    pub fn get_cmd(&self) -> (s: String)
        ensures
            s@ == self.encoder@,
    {
        self.encoder.clone()
    }

    /// What the selection reads of this result.
    pub fn candidate(&self) -> (c: Candidate)
        ensures
            c == candidate_of(*self),
    {
        Candidate { size: self.image.len(), failed: self.failed }
    }
}

impl Invocation {
    /// All arguments of the program: those of the command, followed by the
    /// path of the temporary file where the encoder writes to one.
    pub fn argv(&self, temp_path: &str) -> (r: Vec<String>)
        ensures
            texts(r@) == match self.sink {
                OutputSink::Stdout => texts(self.args@),
                OutputSink::TempFile(_) => texts(self.args@).push(temp_path@),
            },
    {
        let mut r: Vec<String> = Vec::new();
        let mut i: usize = 0;
        while i < self.args.len()
            invariant
                i <= self.args.len(),
                texts(r@) == texts(self.args@).take(i as int),
            decreases self.args.len() - i,
        {
            let ghost before = texts(r@);
            r.push(self.args[i].clone());
            assert(texts(r@) == before.push(self.args@[i as int]@));
            i += 1;
        }
        assert(texts(self.args@).take(self.args.len() as int) == texts(self.args@));
        match &self.sink {
            OutputSink::Stdout => {},
            OutputSink::TempFile(_) => {
                let ghost before = texts(r@);
                r.push(temp_path.to_owned());
                assert(texts(r@) == before.push(temp_path@));
            },
        }
        r
    }
}

/// Says whether the encoder succeeded, and where it did not, hands out
/// what it wrote, for the log: its standard error, a line feed, its
/// standard output.
pub fn command_print_if_error(output: &RunOutput) -> (r: Result<(), Vec<u8>>)
    ensures
        match r {
            Ok(_) => output.success,
            Err(text) => !output.success && text@ == diagnostics(output.stderr@, output.stdout@),
        },
{
    if output.success {
        return Ok(());
    }
    let mut text: Vec<u8> = Vec::new();
    let mut i: usize = 0;
    while i < output.stderr.len()
        invariant
            i <= output.stderr.len(),
            text@ == output.stderr@.take(i as int),
        decreases output.stderr.len() - i,
    {
        text.push(output.stderr[i]);
        i += 1;
    }
    assert(output.stderr@.take(output.stderr.len() as int) == output.stderr@);
    text.push(10u8);
    let ghost head = text@;
    let mut j: usize = 0;
    while j < output.stdout.len()
        invariant
            j <= output.stdout.len(),
            text@ == head + output.stdout@.take(j as int),
        decreases output.stdout.len() - j,
    {
        text.push(output.stdout[j]);
        j += 1;
    }
    assert(output.stdout@.take(output.stdout.len() as int) == output.stdout@);
    Err(text)
}

/// What the selection reads of each result, in order.
pub fn candidates(buffers: &Vec<ImageBuffer>) -> (cs: Vec<Candidate>)
    ensures
        cs@ == candidates_of(buffers@),
{
    let mut cs: Vec<Candidate> = Vec::new();
    let mut i: usize = 0;
    while i < buffers.len()
        invariant
            i <= buffers.len(),
            cs@ == candidates_of(buffers@).take(i as int),
        decreases buffers.len() - i,
    {
        cs.push(buffers[i].candidate());
        i += 1;
    }
    cs
}

/// Gives every one of `n` candidates a tolerance: the tolerances as they
/// are if there are `n` of them, a single one for all of them, and an
/// error for any other number.
pub fn broadcast_tolerance(tolerance: &Vec<u16>, n: usize) -> (r: Result<Vec<u16>, Failure>)
    ensures
        match r {
            Ok(t) => broadcast(tolerance@, n as nat) == Some(t@),
            Err(e) => broadcast(tolerance@, n as nat) is None && e is Config,
        },
{
    let mut out: Vec<u16> = Vec::new();
    if tolerance.len() == n {
        let mut i: usize = 0;
        while i < n
            invariant
                i <= n,
                n == tolerance.len(),
                out@ == tolerance@.take(i as int),
            decreases n - i,
        {
            out.push(tolerance[i]);
            i += 1;
        }
        assert(tolerance@.take(n as int) == tolerance@);
        Ok(out)
    } else if tolerance.len() == 1 {
        let mut i: usize = 0;
        while i < n
            invariant
                i <= n,
                tolerance.len() == 1,
                out@ == Seq::new(i as nat, |k: int| tolerance@[0]),
            decreases n - i,
        {
            out.push(tolerance[0]);
            i += 1;
        }
        Ok(out)
    } else {
        Err(Failure::Config)
    }
}

/// The tolerances in the type that the selection takes.
pub fn widen(tolerance: &Vec<u16>) -> (w: Vec<i32>)
    ensures
        w@ == widened(tolerance@),
{
    let mut w: Vec<i32> = Vec::new();
    let mut i: usize = 0;
    while i < tolerance.len()
        invariant
            i <= tolerance.len(),
            w@ == widened(tolerance@).take(i as int),
        decreases tolerance.len() - i,
    {
        w.push(tolerance[i] as i32);
        i += 1;
    }
    w
}

/// The files for all results that are neither failed nor empty, or the
/// error that the image's path has no stem to name them by.
fn save_all_files(img: &ImagePath, buffers: &Vec<ImageBuffer>) -> (r: Result<
    Vec<OutputFile>,
    Failure,
>)
    ensures
        match r {
            Ok(fs) => {
                if any_saved(buffers@, buffers.len() as int) {
                    img.file_stem matches Some(stem) && file_views(fs@) == all_files(
                        stem@,
                        buffers@,
                        buffers.len() as int,
                    )
                } else {
                    fs@.len() == 0
                }
            },
            Err(e) => e is ImageMetadata && img.file_stem is None && any_saved(
                buffers@,
                buffers.len() as int,
            ),
        },
{
    let mut files: Vec<OutputFile> = Vec::new();
    let mut i: usize = 0;
    while i < buffers.len()
        invariant
            i <= buffers.len(),
            match img.file_stem {
                Some(stem) => file_views(files@) == all_files(stem@, buffers@, i as int),
                None => files@.len() == 0 && !any_saved(buffers@, i as int),
            },
        decreases buffers.len() - i,
    {
        let b = &buffers[i];
        if !b.failed && b.image.len() != 0 {
            match &img.file_stem {
                None => {
                    return Err(Failure::ImageMetadata);
                },
                Some(stem) => {
                    let mut name: Vec<char> = Vec::new();
                    push_str(&mut name, stem.as_str());
                    name.push('_');
                    push_decimal(&mut name, i as u128);
                    name.push('.');
                    push_str(&mut name, b.extension.as_str());
                    let ghost before = file_views(files@);
                    let file = OutputFile {
                        name: from_chars(&name),
                        source: Source::Candidate(i),
                    };
                    assert(name@ == numbered_name(stem@, i as nat, b.extension@));
                    files.push(file);
                    assert(file_views(files@) == before.push(
                        (numbered_name(stem@, i as nat, b.extension@), Source::Candidate(i)),
                    ));
                },
            }
        }
        i += 1;
    }
    proof {
        if img.file_stem is Some && !any_saved(buffers@, buffers.len() as int) {
            lemma_no_files_without_saved(img.file_stem->0@, buffers@, buffers.len() as int);
        }
    }
    Ok(files)
}

proof fn lemma_no_files_without_saved(stem: Seq<char>, bs: Seq<ImageBuffer>, n: int)
    requires
        0 <= n <= bs.len(),
        !any_saved(bs, n),
    ensures
        all_files(stem, bs, n).len() == 0,
    decreases n,
{
    if n > 0 {
        assert(!saved(candidate_of(bs[n - 1])));
        assert(!any_saved(bs, n - 1));
        lemma_no_files_without_saved(stem, bs, n - 1);
    }
}

/// The one file that is written where only the best result is kept.
fn best_file(img: &ImagePath, buffers: &Vec<ImageBuffer>, winner: Option<usize>) -> (r: Result<
    Vec<OutputFile>,
    Failure,
>)
    requires
        winner matches Some(w) ==> w < buffers.len(),
    ensures
        match r {
            Ok(fs) => match winner {
                Some(w) => img.file_stem matches Some(stem) && file_views(fs@) == seq![
                    (plain_name(stem@, buffers[w as int].extension@), Source::Candidate(w)),
                ],
                None => img.file_name matches Some(name) && file_views(fs@) == seq![
                    (name@, Source::Input),
                ],
            },
            Err(e) => e is ImageMetadata && match winner {
                Some(w) => img.file_stem is None,
                None => img.file_name is None,
            },
        },
{
    let mut files: Vec<OutputFile> = Vec::new();
    match winner {
        Some(w) => match &img.file_stem {
            None => {
                return Err(Failure::ImageMetadata);
            },
            Some(stem) => {
                let mut name: Vec<char> = Vec::new();
                push_str(&mut name, stem.as_str());
                name.push('.');
                push_str(&mut name, buffers[w].extension.as_str());
                assert(name@ == plain_name(stem@, buffers[w as int].extension@));
                files.push(OutputFile { name: from_chars(&name), source: Source::Candidate(w) });
                assert(file_views(files@) == seq![file_view(files@[0])]);
            },
        },
        None => match &img.file_name {
            None => {
                return Err(Failure::ImageMetadata);
            },
            Some(name) => {
                files.push(OutputFile { name: name.clone(), source: Source::Input });
                assert(file_views(files@) == seq![file_view(files@[0])]);
            },
        },
    }
    Ok(files)
}

/// The row of one image for the results table.
pub fn csv_record(
    path: &str,
    original: usize,
    candidates: &Vec<Candidate>,
    verdicts: &Vec<Verdict>,
) -> (row: Vec<String>)
    requires
        verdicts.len() == candidates.len(),
    ensures
        texts(row@) == csv_row(path@, original, candidates@, verdicts@),
        row.len() == 2 + 2 * candidates.len(),
{
    let mut row: Vec<String> = Vec::new();
    row.push(path.to_owned());
    row.push(decimal_string(original as u128));
    let ghost head = seq![path@, decimal(original as nat)];
    assert(texts(row@) == head);
    let n = candidates.len();
    let mut i: usize = 0;
    while i < n
        invariant
            i <= n,
            n == candidates.len(),
            texts(row@) == head + size_columns(candidates@).take(i as int),
        decreases n - i,
    {
        let c = candidates[i];
        let ghost before = texts(row@);
        let column = if !c.failed && c.size != 0 {
            decimal_string(c.size as u128)
        } else {
            String::new()
        };
        row.push(column);
        assert(texts(row@) == before.push(size_column(c)));
        assert(size_columns(candidates@).take(i + 1) == size_columns(candidates@).take(
            i as int,
        ).push(size_column(c)));
        i += 1;
    }
    assert(size_columns(candidates@).take(n as int) == size_columns(candidates@));
    let ghost sizes = head + size_columns(candidates@);
    let ghost percents = percent_columns(candidates@, verdicts@);
    let mut i: usize = 0;
    assert(percents.take(0) == Seq::<Seq<char>>::empty());
    assert(sizes + Seq::<Seq<char>>::empty() == sizes);
    while i < n
        invariant
            i <= n,
            n == candidates.len(),
            n == verdicts.len(),
            percents == percent_columns(candidates@, verdicts@),
            texts(row@) == sizes + percents.take(i as int),
        decreases n - i,
    {
        let c = candidates[i];
        let ghost before = texts(row@);
        let column = match verdicts[i].percent {
            Some(p) => if !c.failed && c.size != 0 {
                decimal_string(p)
            } else {
                String::new()
            },
            None => String::new(),
        };
        row.push(column);
        assert(texts(row@) == before.push(percent_column(c, verdicts@[i as int])));
        assert(percents.take(i + 1) == percents.take(i as int).push(
            percent_column(c, verdicts@[i as int]),
        ));
        i += 1;
    }
    assert(percents.take(n as int) == percents);
    proof {
        lemma_csv_row_width(path@, original, candidates@, verdicts@);
        assert(row@.len() == texts(row@).len());
    }
    row
}

/// Compares the results of all commands on one image and says what is to
/// be saved and reported.
///
/// `img_filesize` is the size of the input file, and `enc_img_buffers`
/// holds one result for each command of `opt.cmds`, in their order: the
/// decision is made only when all results are in. Candidates are judged in
/// that order, each against the best so far, under its tolerance. With
/// `opt.save_all` every result that is neither failed nor empty is saved
/// under a numbered name and nothing is singled out; otherwise the last
/// winner is saved, or the input is copied where no candidate won.
///
/// Fails with `Failure::Config` unless there is one result for each command
/// and one tolerance for all or for each of them, and with
/// `Failure::ImageMetadata` where a file is to be written and the image's
/// path lacks the part that its name is made of.
pub fn process_image(
    img: &ImagePath,
    img_filesize: usize,
    enc_img_buffers: &Vec<ImageBuffer>,
    opt: &Opt,
) -> (r: Result<ImageReport, Failure>)
    ensures
        match r {
            Ok(report) => {
                &&& enc_img_buffers.len() == opt.cmds.len()
                &&& broadcast(opt.tolerance@, opt.cmds.len() as nat) matches Some(t)
                &&& report_matches(
                    report,
                    *img,
                    img_filesize,
                    enc_img_buffers@,
                    widened(t),
                    opt.save_all,
                    opt.csv_save,
                )
                &&& report.csv_row matches Some(row) ==> row.len() == 2 + 2 * opt.cmds.len()
            },
            Err(e) => {
                if enc_img_buffers.len() != opt.cmds.len() {
                    e is Config
                } else {
                    match broadcast(opt.tolerance@, opt.cmds.len() as nat) {
                        None => e is Config,
                        Some(t) => e is ImageMetadata && output_files(
                            *img,
                            enc_img_buffers@,
                            widened(t),
                            img_filesize,
                            opt.save_all,
                        ) is None,
                    }
                }
            },
        },
{
    let n = enc_img_buffers.len();
    if n != opt.cmds.len() {
        return Err(Failure::Config);
    }
    let tolerance = match broadcast_tolerance(&opt.tolerance, n) {
        Ok(t) => t,
        Err(e) => {
            return Err(e);
        },
    };
    let tols = widen(&tolerance);
    let cs = candidates(enc_img_buffers);
    let verdicts = match evaluate(&cs, &tols, img_filesize, !opt.save_all) {
        Some(v) => v,
        None => {
            return Err(Failure::Config);
        },
    };
    let best = match select(&cs, &tols, img_filesize) {
        Some(b) => b,
        None => {
            return Err(Failure::Config);
        },
    };
    proof {
        crate::selection::lemma_winner_was_better(cs@, tols@, img_filesize, n as int);
    }
    let decision = if opt.save_all {
        Decision { winner: None, original_size: img_filesize, copied_input: false }
    } else {
        Decision {
            winner: best.winner,
            original_size: img_filesize,
            copied_input: best.winner.is_none(),
        }
    };
    let files = if opt.save_all {
        save_all_files(img, enc_img_buffers)
    } else {
        best_file(img, enc_img_buffers, best.winner)
    };
    let files = match files {
        Ok(f) => f,
        Err(e) => {
            return Err(e);
        },
    };
    proof {
        if opt.save_all && !any_saved(enc_img_buffers@, n as int) {
            assert(file_views(files@) == Seq::<(Seq<char>, Source)>::empty());
        }
    }
    let winner = match decision.winner {
        Some(w) => enc_img_buffers[w].get_cmd(),
        None => if decision.copied_input {
            "Copy input".to_owned()
        } else {
            String::new()
        },
    };
    let csv_row = if opt.csv_save {
        Some(csv_record(img.path.as_str(), img_filesize, &cs, &verdicts))
    } else {
        None
    };
    assert(verdicts@ == verdicts_of(cs@, tols@, img_filesize, opt.save_all));
    Ok(ImageReport { decision, winner, files, csv_row, verdicts })
}

} // verus!
