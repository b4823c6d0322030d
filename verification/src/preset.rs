//! Presets: named command templates with numbered placeholders, and the
//! candidates that fill them in.
//!
//! A candidate is written as a preset's name, followed by arguments in
//! parentheses where the preset takes any: `cjxl_d(5)`. The preset's template holds the
//! placeholders `%1%`, `%2%` and so on, and the candidate's arguments take
//! their places, first to last.

use vstd::prelude::*;
use crate::error::Failure;
use crate::text::{
    decimal, digit_of, digits_value, find_char, first_index, from_chars, is_digit,
    lemma_decimal_digits, lemma_digits_value_grows, lemma_first_index, push_decimal, replace,
    replace_chars, rows, same_chars, slice_chars, split, split_chars, texts, to_chars,
    to_strings,
};

verus! {

/// A command template: `encode` holds the command line with placeholders,
/// `ext` the extension of the files that the command produces, and
/// `output_from_stdout` is present where the command writes the image to
/// standard output.
#[derive(Debug)]
pub struct EncodeSetting {
    pub encode: String,
    pub ext: String,
    pub output_from_stdout: Option<()>,
}

/// A template under its name.
#[derive(Debug)]
pub struct Preset {
    pub name: String,
    pub setting: EncodeSetting,
}

/// The catalog of presets. Where a name occurs twice, the first counts.
#[derive(Debug)]
pub struct Settings {
    pub presets: Vec<Preset>,
}

/// A candidate as it was given, taken apart.
#[derive(Debug)]
pub struct CandidateSpec {
    /// The candidate as it was written.
    pub name: String,
    /// The name of the preset.
    pub preset_key: String,
    /// The arguments for the placeholders, in order.
    pub template_args: Vec<String>,
}

/// A command line in which every placeholder has been filled in.
#[derive(Debug)]
pub struct ResolvedCommand {
    pub encoder: String,
    pub extension: String,
    pub output_from_stdout: bool,
}

/// The template that the catalog holds under `name`: that of the first
/// preset with this name.
pub open spec fn find_preset(presets: Seq<Preset>, name: Seq<char>) -> Option<EncodeSetting>
    decreases presets.len(),
{
    if presets.len() == 0 {
        None
    } else if presets[0].name@ == name {
        Some(presets[0].setting)
    } else {
        find_preset(presets.skip(1), name)
    }
}

/// The catalog holds a template under `name` exactly if one of its presets
/// has this name, and the template is then that of a preset of this name.
pub proof fn lemma_find_preset(presets: Seq<Preset>, name: Seq<char>)
    ensures
        find_preset(presets, name) is Some <==> exists|i: int|
            0 <= i < presets.len() && (#[trigger] presets[i]).name@ == name,
        find_preset(presets, name) matches Some(s) ==> exists|i: int|
            0 <= i < presets.len() && (#[trigger] presets[i]).name@ == name && presets[i].setting
                == s,
    decreases presets.len(),
{
    if presets.len() != 0 {
        if presets[0].name@ != name {
            let rest = presets.skip(1);
            lemma_find_preset(rest, name);
            if find_preset(rest, name) is Some {
                let i = choose|i: int|
                    0 <= i < rest.len() && (#[trigger] rest[i]).name@ == name && rest[i].setting
                        == find_preset(rest, name)->0;
                assert(presets[i + 1] == rest[i]);
            } else {
                assert forall|i: int| 0 <= i < presets.len() implies (#[trigger] presets[i]).name@
                    != name by {
                    if i > 0 {
                        assert(rest[i - 1] == presets[i]);
                    }
                }
            }
        }
    }
}

/// The part of a candidate before its first parenthesis: the preset's name.
pub open spec fn token_name(cmd: Seq<char>) -> Seq<char> {
    cmd.take(first_index(cmd, '('))
}

/// The arguments of a candidate: what stands between the first parenthesis
/// and the closing one at the end, split at commas. A candidate without a
/// parenthesis has no arguments. There are none to speak of where a
/// parenthesis is opened and the candidate does not end with a closing one.
pub open spec fn token_args(cmd: Seq<char>) -> Option<Seq<Seq<char>>> {
    let open = first_index(cmd, '(');
    if open >= cmd.len() {
        Some(Seq::empty())
    } else if cmd.last() != ')' {
        None
    } else {
        Some(split(cmd.subrange(open + 1, cmd.len() - 1), ','))
    }
}

/// The placeholder for the argument with number `i`, counted from one.
pub open spec fn placeholder(i: nat) -> Seq<char> {
    seq!['%'] + decimal(i) + seq!['%']
}

/// The template after the first `n` arguments have taken the places of
/// their placeholders, one argument after the other.
pub open spec fn substitute(template: Seq<char>, args: Seq<Seq<char>>, n: int) -> Seq<char>
    decreases n,
{
    if n <= 0 {
        template
    } else {
        replace(substitute(template, args, n - 1), placeholder(n as nat), args[n - 1])
    }
}

/// Whether a placeholder stands in `t` from index `p` to index `q`: a
/// percent sign at both, and between them a number without a leading zero.
pub open spec fn placeholder_at(t: Seq<char>, p: int, q: int) -> bool {
    &&& 0 <= p
    &&& p + 1 < q < t.len()
    &&& t[p] == '%'
    &&& t[q] == '%'
    &&& t[p + 1] != '0'
    &&& forall|k: int| p < k < q ==> is_digit(#[trigger] t[k])
}

/// Whether `t` holds a placeholder with a number above `limit`.
pub open spec fn refers_past(t: Seq<char>, limit: nat) -> bool {
    exists|p: int, q: int| #[trigger]
        placeholder_at(t, p, q) && digits_value(t.subrange(p + 1, q)) > limit
}

/// The placeholder for argument `n` is a placeholder, and its number is
/// `n`.
pub proof fn lemma_placeholder_is_placeholder(n: nat)
    requires
        n >= 1,
    ensures
        placeholder_at(placeholder(n), 0, placeholder(n).len() - 1),
        digits_value(placeholder(n).subrange(1, placeholder(n).len() - 1)) == n,
{
    lemma_decimal_digits(n);
    let t = placeholder(n);
    assert(t.subrange(1, t.len() - 1) == decimal(n));
    assert forall|k: int| 0 < k < t.len() - 1 implies is_digit(#[trigger] t[k]) by {
        assert(t[k] == decimal(n)[k - 1]);
    }
    assert(t[1] == decimal(n)[0]);
}

/// The name of the preset that a candidate asks for.
pub fn preset_key(cmd: &str) -> (key: String)
    ensures
        key@ == token_name(cmd@),
{
    let chars = to_chars(cmd);
    let open = find_char(&chars, '(');
    proof {
        lemma_first_index(chars@, '(');
    }
    let key = slice_chars(&chars, 0, open);
    from_chars(&key)
}

/// Takes a candidate apart into the preset's name and the arguments.
///
/// Fails with `Failure::SpecParse` exactly where the candidate opens a
/// parenthesis and does not end with a closing one.
pub fn parse_candidate(cmd: &str) -> (r: Result<CandidateSpec, Failure>)
    ensures
        match r {
            Ok(spec) => {
                &&& spec.name@ == cmd@
                &&& spec.preset_key@ == token_name(cmd@)
                &&& token_args(cmd@) == Some(texts(spec.template_args@))
            },
            Err(e) => e is SpecParse && token_args(cmd@) is None,
        },
{
    let chars = to_chars(cmd);
    let open = find_char(&chars, '(');
    proof {
        lemma_first_index(chars@, '(');
    }
    let args: Vec<Vec<char>> = if open >= chars.len() {
        let none: Vec<Vec<char>> = Vec::new();
        assert(rows(none@) == Seq::<Seq<char>>::empty());
        none
    } else if chars[chars.len() - 1] != ')' {
        return Err(Failure::SpecParse);
    } else {
        let inner = slice_chars(&chars, open + 1, chars.len() - 1);
        split_chars(&inner, ',')
    };
    let key = slice_chars(&chars, 0, open);
    Ok(
        CandidateSpec {
            name: cmd.to_owned(),
            preset_key: from_chars(&key),
            template_args: to_strings(&args),
        },
    )
}

impl Settings {
    /// The template under `name`, if the catalog holds one.
    pub fn get(&self, name: &str) -> (r: Option<&EncodeSetting>)
        ensures
            match r {
                Some(s) => find_preset(self.presets@, name@) == Some(*s),
                None => find_preset(self.presets@, name@) is None,
            },
    {
        let wanted = to_chars(name);
        let mut i: usize = 0;
        assert(self.presets@.skip(0) == self.presets@);
        while i < self.presets.len()
            invariant
                i <= self.presets.len(),
                wanted@ == name@,
                find_preset(self.presets@, name@) == find_preset(
                    self.presets@.skip(i as int),
                    name@,
                ),
            decreases self.presets.len() - i,
        {
            let have = to_chars(self.presets[i].name.as_str());
            if same_chars(&have, &wanted) {
                return Some(&self.presets[i].setting);
            }
            assert(self.presets@.skip(i as int).skip(1) == self.presets@.skip(i + 1));
            i += 1;
        }
        None
    }
}

/// Whether the template holds a placeholder with a number above `limit`.
pub fn refers_beyond(t: &Vec<char>, limit: usize) -> (r: bool)
    ensures
        r == refers_past(t@, limit as nat),
{
    let mut p: usize = 0;
    while p < t.len()
        invariant
            p <= t.len(),
            forall|p0: int, q0: int|
                0 <= p0 < p && #[trigger] placeholder_at(t@, p0, q0) ==> digits_value(
                    t@.subrange(p0 + 1, q0),
                ) <= limit,
        decreases t.len() - p,
    {
        if t[p] == '%' {
            let mut k: usize = p + 1;
            let mut value: u128 = 0;
            let mut over = false;
            assert(t@.subrange(p + 1, k as int).len() == 0);
            loop
                invariant_except_break
                    p < k <= t.len(),
                    p < t.len(),
                    forall|j: int| p < j < k ==> is_digit(#[trigger] t@[j]),
                    !over ==> value == digits_value(t@.subrange(p + 1, k as int)) && value
                        <= limit,
                    over ==> digits_value(t@.subrange(p + 1, k as int)) > limit,
                ensures
                    p < k <= t.len(),
                    p < t.len(),
                    forall|j: int| p < j < k ==> is_digit(#[trigger] t@[j]),
                    !over ==> value == digits_value(t@.subrange(p + 1, k as int)) && value
                        <= limit,
                    over ==> digits_value(t@.subrange(p + 1, k as int)) > limit,
                    k < t.len() ==> !is_digit(t@[k as int]),
                decreases t.len() - k,
            {
                if k >= t.len() {
                    break ;
                }
                let d = match digit_of(t[k]) {
                    Some(d) => d,
                    None => {
                        break ;
                    },
                };
                proof {
                    lemma_digits_value_grows(t@, p + 1, k as int);
                }
                if !over {
                    let next: u128 = value * 10 + d as u128;
                    if next > limit as u128 {
                        over = true;
                    } else {
                        value = next;
                    }
                }
                k += 1;
            }
            if k < t.len() && t[k] == '%' && k > p + 1 && t[p + 1] != '0' && over {
                assert(placeholder_at(t@, p as int, k as int));
                return true;
            }
            assert forall|q0: int| #[trigger] placeholder_at(t@, p as int, q0) implies digits_value(
                t@.subrange(p + 1, q0),
            ) <= limit by {
                if q0 < k {
                    assert(is_digit(t@[q0]));
                } else if q0 > k {
                    assert(is_digit(t@[k as int]));
                }
            }
        } else {
            assert forall|q0: int| !#[trigger] placeholder_at(t@, p as int, q0) by {}
        }
        p += 1;
    }
    false
}

/// The placeholder for argument `i`.
fn placeholder_chars(i: u128) -> (r: Vec<char>)
    ensures
        r@ == placeholder(i as nat),
{
    let mut r: Vec<char> = Vec::new();
    r.push('%');
    push_decimal(&mut r, i);
    r.push('%');
    r
}

/// Fills a preset's template with a candidate's arguments.
///
/// The preset is looked up under the candidate's key. Each argument then
/// takes the place of every occurrence of its placeholder, the first
/// argument first; the text is replaced as it stands.
///
/// Fails with `Failure::UnknownPreset` exactly where the catalog holds no
/// preset of that name, and with `Failure::SpecParse` exactly where it
/// does and the template holds a placeholder with a number for which the
/// candidate has no argument.
pub fn resolve(spec: &CandidateSpec, catalog: &Settings) -> (r: Result<ResolvedCommand, Failure>)
    ensures
        match find_preset(catalog.presets@, spec.preset_key@) {
            None => r matches Err(e) && e is UnknownPreset,
            Some(setting) => {
                let args = texts(spec.template_args@);
                if refers_past(setting.encode@, args.len()) {
                    r matches Err(e) && e is SpecParse
                } else {
                    &&& r matches Ok(cmd)
                    &&& cmd.encoder@ == substitute(setting.encode@, args, args.len() as int)
                    &&& cmd.extension@ == setting.ext@
                    &&& cmd.output_from_stdout == (setting.output_from_stdout is Some)
                }
            },
        },
{
    let setting = match catalog.get(spec.preset_key.as_str()) {
        Some(s) => s,
        None => {
            return Err(Failure::UnknownPreset);
        },
    };
    let template = to_chars(setting.encode.as_str());
    let n = spec.template_args.len();
    if refers_beyond(&template, n) {
        return Err(Failure::SpecParse);
    }
    let ghost args = texts(spec.template_args@);
    let mut current = template;
    let mut i: usize = 0;
    while i < n
        invariant
            i <= n,
            n == spec.template_args.len(),
            args == texts(spec.template_args@),
            current@ == substitute(setting.encode@, args, i as int),
        decreases n - i,
    {
        let pattern = placeholder_chars(i as u128 + 1);
        let with = to_chars(spec.template_args[i].as_str());
        current = replace_chars(&current, &pattern, &with);
        i += 1;
    }
    Ok(
        ResolvedCommand {
            encoder: from_chars(&current),
            extension: setting.ext.clone(),
            output_from_stdout: setting.output_from_stdout.is_some(),
        },
    )
}

} // verus!
