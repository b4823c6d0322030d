//! Options for encoding a video from images with `ffmpeg`, and the text of
//! the files and command lines that are handed to it.

use std::collections::HashMap;
use vstd::prelude::*;
use crate::error::Failure;
use crate::text::{
    find_char, first_index, from_chars, lemma_first_index, number_of, parse_usize, push_str,
    same_chars, slice_chars, split, split_chars, texts, to_chars, to_strings,
};

verus! {

/// The settings of one video preset. What is absent is taken from the
/// defaults.
#[derive(Debug)]
pub struct VideoEncodeSettings {
    pub container: Option<String>,
    pub two_pass: Option<bool>,
    pub quality_slider: Option<String>,
    pub args: String,
}

/// The settings of a video preset under its name.
#[derive(Debug)]
pub struct VideoPreset {
    pub name: String,
    pub settings: VideoEncodeSettings,
}

/// The options for one video.
#[derive(Debug)]
pub struct VideoOpts {
    /// The container, which is the extension of the video file.
    pub container: String,
    /// Whether the video is encoded in two passes.
    pub two_pass: bool,
    /// The arguments for `ffmpeg`.
    pub args: String,
    /// The name of the option that sets the quality.
    pub quality_slider: String,
    /// The presets. Where a name occurs twice, the first counts.
    pub json: Vec<VideoPreset>,
}

/// The settings that the presets hold under `name`: those of the first
/// preset with this name.
pub open spec fn find_video(presets: Seq<VideoPreset>, name: Seq<char>) -> Option<
    VideoEncodeSettings,
>
    decreases presets.len(),
{
    if presets.len() == 0 {
        None
    } else if presets[0].name@ == name {
        Some(presets[0].settings)
    } else {
        find_video(presets.skip(1), name)
    }
}

/// The names of the presets, in order.
pub open spec fn preset_names(presets: Seq<VideoPreset>) -> Seq<Seq<char>> {
    Seq::new(presets.len(), |i: int| presets[i].name@)
}

/// The presets hold settings under `name` exactly if `name` is among their
/// names.
pub proof fn lemma_find_video(presets: Seq<VideoPreset>, name: Seq<char>)
    ensures
        find_video(presets, name) is Some <==> preset_names(presets).contains(name),
    decreases presets.len(),
{
    let names = preset_names(presets);
    if presets.len() != 0 {
        if presets[0].name@ == name {
            assert(names[0] == name);
        } else {
            let rest = presets.skip(1);
            lemma_find_video(rest, name);
            let rest_names = preset_names(rest);
            if rest_names.contains(name) {
                let i = choose|i: int| 0 <= i < rest_names.len() && rest_names[i] == name;
                assert(names[i + 1] == name);
            }
            if names.contains(name) {
                let i = choose|i: int| 0 <= i < names.len() && names[i] == name;
                assert(rest_names[i - 1] == name);
            }
        }
    }
}

/// The arguments for a preset: the arguments so far, those of the preset,
/// the quality under the name of the quality's option, and the frame
/// timing left as it is.
pub open spec fn preset_args(
    before: Seq<char>,
    preset: Seq<char>,
    slider: Seq<char>,
    quality: Seq<char>,
) -> Seq<char> {
    before + preset + " -"@ + slider + " "@ + quality + " -fps_mode passthrough"@
}

/// Looks up the settings under `name`.
pub fn find<'a>(presets: &'a Vec<VideoPreset>, name: &str) -> (r: Option<&'a VideoEncodeSettings>)
    ensures
        match r {
            Some(s) => find_video(presets@, name@) == Some(*s),
            None => find_video(presets@, name@) is None,
        },
{
    let wanted = to_chars(name);
    let mut i: usize = 0;
    assert(presets@.skip(0) == presets@);
    while i < presets.len()
        invariant
            i <= presets.len(),
            wanted@ == name@,
            find_video(presets@, name@) == find_video(presets@.skip(i as int), name@),
        decreases presets.len() - i,
    {
        let have = to_chars(presets[i].name.as_str());
        if same_chars(&have, &wanted) {
            return Some(&presets[i].settings);
        }
        assert(presets@.skip(i as int).skip(1) == presets@.skip(i + 1));
        i += 1;
    }
    None
}

impl VideoOpts {
    /// The options that the presets give by default: those of the preset
    /// `default`, which has to set everything.
    ///
    /// Fails with `Failure::Config` exactly where there is no preset
    /// `default` or it leaves the container, the number of passes or the
    /// name of the quality's option open.
    pub fn new(json: Vec<VideoPreset>) -> (r: Result<VideoOpts, Failure>)
        ensures
            match r {
                Ok(v) => {
                    &&& find_video(json@, "default"@) matches Some(d)
                    &&& d.container matches Some(c)
                    &&& d.two_pass matches Some(t)
                    &&& d.quality_slider matches Some(q)
                    &&& v.container@ == c@
                    &&& v.two_pass == t
                    &&& v.quality_slider@ == q@
                    &&& v.args@ == d.args@
                    &&& v.json == json
                },
                Err(e) => {
                    &&& e is Config
                    &&& find_video(json@, "default"@) matches Some(d) ==> d.container is None
                        || d.two_pass is None || d.quality_slider is None
                },
            },
    {
        let (container, two_pass, quality_slider, args) = match find(&json, "default") {
            None => {
                return Err(Failure::Config);
            },
            Some(d) => match (&d.container, d.two_pass, &d.quality_slider) {
                (Some(c), Some(t), Some(q)) => (c.clone(), t, q.clone(), d.args.clone()),
                _ => {
                    return Err(Failure::Config);
                },
            },
        };
        Ok(VideoOpts { container, two_pass, args, quality_slider, json })
    }

    /// Takes the arguments from the command line.
    ///
    /// Where `args` is the name of a preset, the preset's container and
    /// number of passes replace the defaults as far as it sets them, and
    /// its arguments are added together with the quality. Otherwise `args`
    /// itself is added to the arguments. A container or a number of passes
    /// given on the command line replaces whatever was there.
    pub fn args_match(
        &mut self,
        args: &str,
        container: &Option<String>,
        two_pass: &Option<bool>,
        quality: &str,
    )
        ensures
            final(self).json == old(self).json,
            final(self).quality_slider == old(self).quality_slider,
            final(self).args@ == match find_video(old(self).json@, args@) {
                Some(p) => preset_args(
                    old(self).args@,
                    p.args@,
                    old(self).quality_slider@,
                    quality@,
                ),
                None => old(self).args@ + args@,
            },
            final(self).container@ == match *container {
                Some(c) => c@,
                None => match find_video(old(self).json@, args@) {
                    Some(p) => match p.container {
                        Some(c) => c@,
                        None => old(self).container@,
                    },
                    None => old(self).container@,
                },
            },
            final(self).two_pass == match *two_pass {
                Some(t) => t,
                None => match find_video(old(self).json@, args@) {
                    Some(p) => match p.two_pass {
                        Some(t) => t,
                        None => old(self).two_pass,
                    },
                    None => old(self).two_pass,
                },
            },
    {
        let mut new_args: Vec<char> = Vec::new();
        push_str(&mut new_args, self.args.as_str());
        let mut new_container: Option<String> = None;
        let mut new_two_pass: Option<bool> = None;
        match find(&self.json, args) {
            Some(preset) => {
                match &preset.container {
                    Some(c) => {
                        new_container = Some(c.clone());
                    },
                    None => {},
                }
                new_two_pass = preset.two_pass;
                push_str(&mut new_args, preset.args.as_str());
                push_str(&mut new_args, " -");
                push_str(&mut new_args, self.quality_slider.as_str());
                push_str(&mut new_args, " ");
                push_str(&mut new_args, quality);
                push_str(&mut new_args, " -fps_mode passthrough");
                assert(new_args@ == preset_args(
                    self.args@,
                    preset.args@,
                    self.quality_slider@,
                    quality@,
                ));
            },
            None => {
                push_str(&mut new_args, args);
            },
        }
        self.args = from_chars(&new_args);
        match new_container {
            Some(c) => {
                self.container = c;
            },
            None => {},
        }
        match new_two_pass {
            Some(t) => {
                self.two_pass = t;
            },
            None => {},
        }
        match container {
            Some(c) => {
                self.container = c.clone();
            },
            None => {},
        }
        match two_pass {
            Some(t) => {
                self.two_pass = *t;
            },
            None => {},
        }
    }

    /// The names of the presets, in order.
    pub fn presets_list(&self) -> (names: Vec<String>)
        ensures
            texts(names@) == preset_names(self.json@),
    {
        let mut names: Vec<String> = Vec::new();
        let mut i: usize = 0;
        while i < self.json.len()
            invariant
                i <= self.json.len(),
                texts(names@) == preset_names(self.json@).take(i as int),
            decreases self.json.len() - i,
        {
            let ghost before = texts(names@);
            names.push(self.json[i].name.clone());
            assert(texts(names@) == before.push(self.json@[i as int].name@));
            i += 1;
        }
        assert(preset_names(self.json@).take(self.json.len() as int) == preset_names(self.json@));
        names
    }

    /// Whether the arguments are the name of a preset.
    pub fn args_ispreset(&self) -> (r: bool)
        ensures
            r == preset_names(self.json@).contains(self.args@),
    {
        proof {
            lemma_find_video(self.json@, self.args@);
        }
        find(&self.json, self.args.as_str()).is_some()
    }
}

/// The name of the video file.
pub open spec fn video_name(filestem: Seq<char>, container: Seq<char>) -> Seq<char> {
    filestem + "."@ + container
}

/// The arguments that make `ffmpeg` analyse the video without writing one.
pub open spec fn first_pass_args() -> Seq<Seq<char>> {
    seq!["-pass"@, "1"@, "-an"@, "-f"@, "null"@, "/dev/null"@]
}

/// The arguments that make `ffmpeg` use what the first pass found.
pub open spec fn second_pass_args() -> Seq<Seq<char>> {
    seq!["-pass"@, "2"@, "-hide_banner"@]
}

/// The argument lists with which `ffmpeg` is started, one after the other:
/// the command split at each blank, followed in two passes by the
/// arguments of the pass, and in the last or only pass by the name of the
/// video file.
pub open spec fn ffmpeg_runs(
    ffmpeg_cmd: Seq<char>,
    filestem: Seq<char>,
    two_pass: bool,
    container: Seq<char>,
) -> Seq<Seq<Seq<char>>> {
    let cmd = split(ffmpeg_cmd, ' ');
    let name = video_name(filestem, container);
    if two_pass {
        seq![cmd + first_pass_args(), (cmd + second_pass_args()).push(name)]
    } else {
        seq![cmd.push(name)]
    }
}

/// The argument lists as texts.
pub open spec fn run_views(runs: Seq<Vec<String>>) -> Seq<Seq<Seq<char>>> {
    Seq::new(runs.len(), |i: int| texts(runs[i]@))
}

fn push_text(out: &mut Vec<String>, s: &str)
    ensures
        texts(final(out)@) == texts(old(out)@).push(s@),
{
    let ghost before = texts(out@);
    out.push(s.to_owned());
    assert(texts(out@) == before.push(s@));
}

fn command_words(ffmpeg_cmd: &str) -> (r: Vec<String>)
    ensures
        texts(r@) == split(ffmpeg_cmd@, ' '),
{
    let chars = to_chars(ffmpeg_cmd);
    let parts = split_chars(&chars, ' ');
    to_strings(&parts)
}

/// The argument lists with which `ffmpeg` is to be started, one after the
/// other, to encode the video `filestem` in the given container.
pub fn ffmpeg_run(ffmpeg_cmd: &str, filestem: &str, two_pass: bool, container: &str) -> (runs: Vec<
    Vec<String>,
>)
    ensures
        run_views(runs@) == ffmpeg_runs(ffmpeg_cmd@, filestem@, two_pass, container@),
{
    let mut name: Vec<char> = Vec::new();
    push_str(&mut name, filestem);
    push_str(&mut name, ".");
    push_str(&mut name, container);
    let name = from_chars(&name);
    let mut runs: Vec<Vec<String>> = Vec::new();
    if two_pass {
        let mut first = command_words(ffmpeg_cmd);
        push_text(&mut first, "-pass");
        push_text(&mut first, "1");
        push_text(&mut first, "-an");
        push_text(&mut first, "-f");
        push_text(&mut first, "null");
        push_text(&mut first, "/dev/null");
        assert(texts(first@) == split(ffmpeg_cmd@, ' ') + first_pass_args());
        let mut second = command_words(ffmpeg_cmd);
        push_text(&mut second, "-pass");
        push_text(&mut second, "2");
        push_text(&mut second, "-hide_banner");
        push_text(&mut second, name.as_str());
        assert(texts(second@) == (split(ffmpeg_cmd@, ' ') + second_pass_args()).push(name@));
        runs.push(first);
        runs.push(second);
    } else {
        let mut only = command_words(ffmpeg_cmd);
        push_text(&mut only, name.as_str());
        runs.push(only);
    }
    assert(run_views(runs@) == ffmpeg_runs(ffmpeg_cmd@, filestem@, two_pass, container@));
    runs
}

/// The lines that name the first `n` files.
pub open spec fn file_lines(paths: Seq<Seq<char>>, n: int) -> Seq<char>
    decreases n,
{
    if n <= 0 {
        Seq::empty()
    } else {
        file_lines(paths, n - 1) + "file '"@ + paths[n - 1] + "'\n"@
    }
}

/// The text of a list of files for `ffmpeg` to join: a header, one line
/// for each file, and the last file once more, without an end of line.
pub open spec fn demuxer_from_files(paths: Seq<Seq<char>>) -> Seq<char> {
    "ffconcat version 1.0\n"@ + file_lines(paths, paths.len() as int) + "file '"@ + paths.last()
        + "'"@
}

/// The text of a list of files for `ffmpeg` to join.
pub fn ffmpeg_demuxer_create_from_files(input: &Vec<String>) -> (text: String)
    requires
        input.len() > 0,
    ensures
        text@ == demuxer_from_files(texts(input@)),
{
    let ghost paths = texts(input@);
    let mut out: Vec<char> = Vec::new();
    push_str(&mut out, "ffconcat version 1.0\n");
    let ghost head = out@;
    let mut i: usize = 0;
    assert(head + file_lines(paths, 0) == head);
    while i < input.len()
        invariant
            i <= input.len(),
            paths == texts(input@),
            out@ == head + file_lines(paths, i as int),
        decreases input.len() - i,
    {
        let ghost before = out@;
        push_str(&mut out, "file '");
        push_str(&mut out, input[i].as_str());
        push_str(&mut out, "'\n");
        assert(out@ == head + (file_lines(paths, i as int) + "file '"@ + paths[i as int] + "'\n"@));
        i += 1;
    }
    push_str(&mut out, "file '");
    push_str(&mut out, input[input.len() - 1].as_str());
    push_str(&mut out, "'");
    assert(paths.last() == input@[input.len() - 1]@);
    from_chars(&out)
}

/// The lines that name the first `n` frames and say how long each is shown.
pub open spec fn frame_lines(frames: Seq<(Seq<char>, Seq<char>)>, n: int) -> Seq<char>
    decreases n,
{
    if n <= 0 {
        Seq::empty()
    } else {
        frame_lines(frames, n - 1) + "file '"@ + frames[n - 1].0 + "'\nduration "@ + frames[n
            - 1].1 + "\n"@
    }
}

/// The text of a list of frames for `ffmpeg` to join: a header, two lines
/// for each frame, and the last frame's file once more.
pub open spec fn demuxer_from_frames(frames: Seq<(Seq<char>, Seq<char>)>) -> Seq<char> {
    "ffconcat version 1.0\n"@ + frame_lines(frames, frames.len() as int) + "file "@
        + frames.last().0 + "\n"@
}

/// The frames as texts: each file with its duration.
pub open spec fn frame_views(frames: Seq<(String, String)>) -> Seq<(Seq<char>, Seq<char>)> {
    Seq::new(frames.len(), |i: int| (frames[i].0@, frames[i].1@))
}

/// The text of a list of frames for `ffmpeg` to join. Each frame is the
/// name of its file and its duration in seconds, as it is to be written.
pub fn ffmpeg_demuxer_create_from_json(json_mux: &Vec<(String, String)>) -> (text: String)
    requires
        json_mux.len() > 0,
    ensures
        text@ == demuxer_from_frames(frame_views(json_mux@)),
{
    let ghost frames = frame_views(json_mux@);
    let mut out: Vec<char> = Vec::new();
    push_str(&mut out, "ffconcat version 1.0\n");
    let ghost head = out@;
    let mut i: usize = 0;
    assert(head + frame_lines(frames, 0) == head);
    while i < json_mux.len()
        invariant
            i <= json_mux.len(),
            frames == frame_views(json_mux@),
            out@ == head + frame_lines(frames, i as int),
        decreases json_mux.len() - i,
    {
        push_str(&mut out, "file '");
        push_str(&mut out, json_mux[i].0.as_str());
        push_str(&mut out, "'\nduration ");
        push_str(&mut out, json_mux[i].1.as_str());
        push_str(&mut out, "\n");
        assert(out@ == head + (frame_lines(frames, i as int) + "file '"@ + frames[i as int].0
            + "'\nduration "@ + frames[i as int].1 + "\n"@));
        i += 1;
    }
    push_str(&mut out, "file ");
    push_str(&mut out, json_mux[json_mux.len() - 1].0.as_str());
    push_str(&mut out, "\n");
    assert(frames.last().0 == json_mux@[json_mux.len() - 1].0@);
    from_chars(&out)
}

/// The two numbers of a size written as `2x3`: what stands before the
/// first `x` and what stands after it, each read as a number.
pub open spec fn size_of(a: Seq<char>) -> Option<(nat, nat)> {
    let x = first_index(a, 'x');
    if x >= a.len() {
        None
    } else {
        match (number_of(a.take(x)), number_of(a.skip(x + 1))) {
            (Some(w), Some(h)) => Some((w, h)),
            _ => None,
        }
    }
}

/// Reads the size of a sheet of thumbnails, written as `2x3`.
///
/// Fails with `Failure::Config` where the text has no `x`, where one of
/// the two parts is not a number, and where a number is too large.
pub fn get_thumbnail_size(a: &str) -> (r: Result<(usize, usize), Failure>)
    ensures
        match r {
            Ok((w, h)) => size_of(a@) == Some((w as nat, h as nat)),
            Err(e) => e is Config && (size_of(a@) matches Some((w, h)) ==> w > usize::MAX || h
                > usize::MAX),
        },
{
    let chars = to_chars(a);
    let x = find_char(&chars, 'x');
    proof {
        lemma_first_index(chars@, 'x');
    }
    if x >= chars.len() {
        return Err(Failure::Config);
    }
    let left = slice_chars(&chars, 0, x);
    let right = slice_chars(&chars, x + 1, chars.len());
    match (parse_usize(&left), parse_usize(&right)) {
        (Some(w), Some(h)) => Ok((w, h)),
        _ => Err(Failure::Config),
    }
}

/// How often `v` occurs in `s`.
pub open spec fn occurrences(s: Seq<u32>, v: u32) -> nat
    decreases s.len(),
{
    if s.len() == 0 {
        0
    } else {
        occurrences(s.drop_last(), v) + if s.last() == v {
            1nat
        } else {
            0nat
        }
    }
}

/// A value that occurs at all occurs in the sequence, and no value occurs
/// more often than the sequence is long.
pub proof fn lemma_occurrences(s: Seq<u32>, v: u32)
    ensures
        occurrences(s, v) <= s.len(),
        occurrences(s, v) > 0 <==> s.contains(v),
    decreases s.len(),
{
    if s.len() > 0 {
        lemma_occurrences(s.drop_last(), v);
        if s.drop_last().contains(v) {
            let i = choose|i: int| 0 <= i < s.drop_last().len() && s.drop_last()[i] == v;
            assert(s[i] == v);
        }
        if s.contains(v) && s.last() != v {
            let i = choose|i: int| 0 <= i < s.len() && s[i] == v;
            assert(s.drop_last()[i] == v);
        }
    }
}

/// Whether `counts` holds, for each value, how often it occurs in `s`,
/// and holds nothing for a value that does not occur.
pub open spec fn counts_of(counts: Map<u32, usize>, s: Seq<u32>) -> bool {
    forall|v: u32|
        if #[trigger] occurrences(s, v) > 0 {
            counts.contains_key(v) && counts[v] == occurrences(s, v)
        } else {
            !counts.contains_key(v)
        }
}

/// How often each of the values occurs.
fn tally(values: &Vec<u32>) -> (counts: HashMap<u32, usize>)
    ensures
        counts_of(counts@, values@),
{
    broadcast use vstd::std_specs::hash::group_hash_axioms;

    let mut counts: HashMap<u32, usize> = HashMap::new();
    let mut i: usize = 0;
    assert(counts_of(counts@, values@.take(0))) by {
        assert forall|v: u32| occurrences(values@.take(0), v) == 0 by {}
    }
    while i < values.len()
        invariant
            i <= values.len(),
            counts_of(counts@, values@.take(i as int)),
        decreases values.len() - i,
    {
        let x = values[i];
        let ghost before = values@.take(i as int);
        let ghost after = values@.take(i + 1);
        let ghost old_counts = counts@;
        proof {
            assert(after.drop_last() == before);
            assert(after.last() == x);
            lemma_occurrences(before, x);
        }
        let seen: usize = match counts.get(&x) {
            Some(n) => *n,
            None => 0,
        };
        assert(seen == occurrences(before, x));
        counts.insert(x, seen + 1);
        proof {
            assert forall|v: u32|
                if #[trigger] occurrences(after, v) > 0 {
                    counts@.contains_key(v) && counts@[v] == occurrences(after, v)
                } else {
                    !counts@.contains_key(v)
                } by {
                assert(occurrences(after, v) == occurrences(before, v) + if v == x {
                    1nat
                } else {
                    0nat
                });
            }
        }
        i += 1;
    }
    assert(values@.take(values.len() as int) == values@);
    counts
}

/// A value that occurs in `values` at least as often as any other, or
/// `None` where there are no values.
pub fn most_frequent(values: &Vec<u32>) -> (r: Option<u32>)
    ensures
        match r {
            Some(v) => values@.contains(v) && forall|w: u32|
                occurrences(values@, w) <= occurrences(values@, v),
            None => values.len() == 0,
        },
{
    broadcast use vstd::std_specs::hash::group_hash_axioms;

    if values.len() == 0 {
        return None;
    }
    let counts = tally(values);
    let mut best: u32 = values[0];
    let mut best_count: usize = 0;
    let mut i: usize = 0;
    proof {
        lemma_occurrences(values@, best);
    }
    while i < values.len()
        invariant
            i <= values.len(),
            counts_of(counts@, values@),
            values@.contains(best),
            i == 0 ==> best_count == 0,
            i > 0 ==> best_count == occurrences(values@, best),
            forall|k: int| 0 <= k < i ==> occurrences(values@, #[trigger] values@[k]) <= best_count,
        decreases values.len() - i,
    {
        let x = values[i];
        proof {
            lemma_occurrences(values@, x);
            assert(occurrences(values@, x) > 0);
        }
        let n: usize = match counts.get(&x) {
            Some(n) => *n,
            None => 0,
        };
        assert(n == occurrences(values@, x));
        if n > best_count {
            best = x;
            best_count = n;
        }
        i += 1;
    }
    assert forall|w: u32| occurrences(values@, w) <= occurrences(values@, best) by {
        lemma_occurrences(values@, w);
        if values@.contains(w) {
            let k = choose|k: int| 0 <= k < values@.len() && values@[k] == w;
            assert(occurrences(values@, values@[k]) <= best_count);
        }
    }
    Some(best)
}

/// The next even number where `n` is odd, and `n` itself where it is even.
pub fn round_up_to_even(n: u32) -> (r: u32)
    requires
        n < u32::MAX,
    ensures
        r % 2 == 0,
        n <= r <= n + 1,
{
    if n % 2 == 1 {
        (n / 2) * 2 + 2
    } else {
        n
    }
}

/// The widths of the images.
pub open spec fn widths(dims: Seq<(u32, u32)>) -> Seq<u32> {
    Seq::new(dims.len(), |i: int| dims[i].0)
}

/// The heights of the images.
pub open spec fn heights(dims: Seq<(u32, u32)>) -> Seq<u32> {
    Seq::new(dims.len(), |i: int| dims[i].1)
}

fn column(dims: &Vec<(u32, u32)>, first: bool) -> (r: Vec<u32>)
    ensures
        r@ == if first {
            widths(dims@)
        } else {
            heights(dims@)
        },
{
    let mut r: Vec<u32> = Vec::new();
    let mut i: usize = 0;
    while i < dims.len()
        invariant
            i <= dims.len(),
            r@ == if first {
                widths(dims@).take(i as int)
            } else {
                heights(dims@).take(i as int)
            },
        decreases dims.len() - i,
    {
        r.push(if first { dims[i].0 } else { dims[i].1 });
        i += 1;
    }
    r
}

/// The size of the video for images of the sizes `dims`: a width that no
/// other width occurs more often than, and such a height, each made even
/// where `round` is set. There is none without images.
pub fn get_video_dimm_from_images(dims: &Vec<(u32, u32)>, round: bool) -> (r: Option<(u32, u32)>)
    requires
        round ==> forall|i: int|
            0 <= i < dims.len() ==> (#[trigger] dims[i]).0 < u32::MAX && dims[i].1 < u32::MAX,
    ensures
        r is None <==> dims.len() == 0,
        r matches Some((w, h)) ==> exists|fw: u32, fh: u32|
            {
                &&& widths(dims@).contains(fw)
                &&& heights(dims@).contains(fh)
                &&& forall|x: u32| occurrences(widths(dims@), x) <= occurrences(widths(dims@), fw)
                &&& forall|x: u32|
                    occurrences(heights(dims@), x) <= occurrences(heights(dims@), fh)
                &&& if round {
                    w % 2 == 0 && h % 2 == 0 && fw <= w <= fw + 1 && fh <= h <= fh + 1
                } else {
                    w == fw && h == fh
                }
            },
{
    let ws = column(dims, true);
    let hs = column(dims, false);
    let w = match most_frequent(&ws) {
        Some(w) => w,
        None => {
            return None;
        },
    };
    let h = match most_frequent(&hs) {
        Some(h) => h,
        None => {
            return None;
        },
    };
    proof {
        let i = choose|i: int| 0 <= i < ws@.len() && ws@[i] == w;
        assert(dims[i].0 == w);
        let j = choose|j: int| 0 <= j < hs@.len() && hs@[j] == h;
        assert(dims[j].1 == h);
    }
    if round {
        Some((round_up_to_even(w), round_up_to_even(h)))
    } else {
        Some((w, h))
    }
}

/// The indices of the images whose size is not `size`, in order.
pub fn images_to_resize(dims: &Vec<(u32, u32)>, size: (u32, u32)) -> (r: Vec<usize>)
    ensures
        forall|k: int| 0 <= k < r.len() ==> r[k] < dims.len() && dims[r[k] as int] != size,
        forall|i: int| 0 <= i < dims.len() && dims[i] != size ==> r@.contains(i as usize),
        forall|a: int, b: int| 0 <= a < b < r.len() ==> r[a] < r[b],
{
    let mut r: Vec<usize> = Vec::new();
    let mut i: usize = 0;
    while i < dims.len()
        invariant
            i <= dims.len(),
            forall|k: int| 0 <= k < r.len() ==> r[k] < i && dims[r[k] as int] != size,
            forall|j: int| 0 <= j < i && dims[j] != size ==> r@.contains(j as usize),
            forall|a: int, b: int| 0 <= a < b < r.len() ==> r[a] < r[b],
        decreases dims.len() - i,
    {
        if dims[i].0 != size.0 || dims[i].1 != size.1 {
            let ghost before = r@;
            r.push(i);
            assert forall|j: int| 0 <= j <= i && dims[j] != size implies r@.contains(
                j as usize,
            ) by {
                if j < i {
                    let k = choose|k: int| 0 <= k < before.len() && before[k] == j as usize;
                    assert(r@[k] == j as usize);
                } else {
                    assert(r@[r.len() - 1] == i);
                }
            }
        }
        i += 1;
    }
    r
}

} // verus!
