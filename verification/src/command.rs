//! Command interpretation: matching final transcriptions against configured
//! trigger phrases and deciding what to do.
//!
//! Each trigger is tried as a case-insensitive regular expression anchored at
//! the start of the text, built from the escaped trigger so that it matches
//! literally; the trailing text becomes `{args}`. The first trigger that
//! matches wins; a trigger whose pattern does not compile is skipped. On a
//! `Type` action the substituted template is handed to keyboard output; on an
//! `Exec` action it is split on whitespace into a program and its arguments,
//! to be launched fire-and-forget by the caller.

use crate::config::CommandAction;
use crate::ipc::{chars_to_string, str_to_chars};
use vstd::prelude::*;

verus! {

/// Errors from command interpretation.
#[derive(Debug)]
pub enum CommandError {
    /// A matched command could not be carried out (an `Exec` template that
    /// substitutes to nothing).
    ExecutionError(String),
    /// A command could not be read. Kept for callers; interpretation itself
    /// never produces it (an invalid trigger is skipped, not an error).
    ParseError(String),
}

/// What a matched command asks the caller to do.
#[derive(Debug)]
pub enum CommandOutcome {
    /// Hand this text to keyboard output.
    Typed(String),
    /// Launch this program with these arguments, fire-and-forget.
    Launch { program: String, args: Vec<String> },
}

// ---------------------------------------------------------------------------
// ASCII whitespace, trimming, splitting
// ---------------------------------------------------------------------------

/// The whitespace characters recognized when trimming arguments and
/// splitting command lines: the six ASCII whitespace characters. Exotic
/// Unicode spaces count as ordinary characters here.
pub open spec fn is_space(c: char) -> bool {
    c as u32 == 32 || c as u32 == 9 || c as u32 == 10 || c as u32 == 13 || c as u32 == 11
        || c as u32 == 12
}

/// The first index at or after `i` that does not hold whitespace.
pub open spec fn skip_spaces(s: Seq<char>, i: int) -> int
    decreases s.len() - i,
{
    if 0 <= i < s.len() && is_space(s[i]) {
        skip_spaces(s, i + 1)
    } else {
        i
    }
}

/// The last index at or before `j` such that `s[.. idx]` has no trailing
/// whitespace.
pub open spec fn rskip_spaces(s: Seq<char>, j: int) -> int
    decreases j,
{
    if 0 < j <= s.len() && is_space(s[j - 1]) {
        rskip_spaces(s, j - 1)
    } else {
        j
    }
}

/// `s` without leading and trailing whitespace.
pub open spec fn trim_spec(s: Seq<char>) -> Seq<char> {
    let a = skip_spaces(s, 0);
    let b = rskip_spaces(s, s.len() as int);
    if a <= b {
        s.subrange(a, b)
    } else {
        Seq::empty()
    }
}

/// The first index at or after `i` that holds whitespace (or the end).
pub open spec fn token_end(s: Seq<char>, i: int) -> int
    decreases s.len() - i,
{
    if 0 <= i < s.len() && !is_space(s[i]) {
        token_end(s, i + 1)
    } else {
        i
    }
}

/// The whitespace-separated tokens of `s`, from index `i` on.
pub open spec fn tokens_from(s: Seq<char>, i: int) -> Seq<Seq<char>>
    decreases s.len() - i,
{
    let a = skip_spaces(s, i);
    if !(i <= a < s.len()) {
        Seq::empty()
    } else {
        let b = token_end(s, a);
        if a < b <= s.len() {
            seq![s.subrange(a, b)] + tokens_from(s, b)
        } else {
            Seq::empty()
        }
    }
}

/// A whitespace skip lands in bounds, on a non-space character or the end.
pub proof fn lemma_skip_spaces_shape(s: Seq<char>, i: int)
    requires
        0 <= i <= s.len(),
    ensures
        i <= skip_spaces(s, i) <= s.len(),
        skip_spaces(s, i) < s.len() ==> !is_space(s[skip_spaces(s, i)]),
    decreases s.len() - i,
{
    if i < s.len() && is_space(s[i]) {
        lemma_skip_spaces_shape(s, i + 1);
    }
}

/// A token scan lands in bounds, on a space or the end, and moves at least
/// one character when it starts on a non-space.
pub proof fn lemma_token_end_shape(s: Seq<char>, i: int)
    requires
        0 <= i <= s.len(),
    ensures
        i <= token_end(s, i) <= s.len(),
        i < s.len() && !is_space(s[i]) ==> token_end(s, i) > i,
    decreases s.len() - i,
{
    if i < s.len() && !is_space(s[i]) {
        lemma_token_end_shape(s, i + 1);
    }
}

/// The views of a sequence of strings.
pub open spec fn views_of(ss: Seq<String>) -> Seq<Seq<char>> {
    ss.map_values(|x: String| x@)
}

/// The end of the whitespace run that starts at `i`.
fn skip_spaces_exec(v: &Vec<char>, i: usize) -> (j: usize)
    requires
        i <= v@.len(),
    ensures
        j as int == skip_spaces(v@, i as int),
        i <= j <= v@.len(),
{
    let mut j = i;
    loop
        invariant
            i <= j <= v@.len(),
            skip_spaces(v@, i as int) == skip_spaces(v@, j as int),
        ensures
            j as int == skip_spaces(v@, i as int),
            i <= j <= v@.len(),
        decreases v@.len() - j,
    {
        if j == v.len() {
            break;
        }
        let c = v[j];
        let u = c as u32;
        if !(u == 32 || u == 9 || u == 10 || u == 13 || u == 11 || u == 12) {
            break;
        }
        j = j + 1;
    }
    j
}

/// The end of the non-whitespace run that starts at `i`.
fn token_end_exec(v: &Vec<char>, i: usize) -> (j: usize)
    requires
        i <= v@.len(),
    ensures
        j as int == token_end(v@, i as int),
        i <= j <= v@.len(),
{
    let mut j = i;
    loop
        invariant
            i <= j <= v@.len(),
            token_end(v@, i as int) == token_end(v@, j as int),
        ensures
            j as int == token_end(v@, i as int),
            i <= j <= v@.len(),
        decreases v@.len() - j,
    {
        if j == v.len() {
            break;
        }
        let c = v[j];
        let u = c as u32;
        if u == 32 || u == 9 || u == 10 || u == 13 || u == 11 || u == 12 {
            break;
        }
        j = j + 1;
    }
    j
}

/// Trim leading and trailing whitespace.
fn trim_chars(v: &Vec<char>) -> (r: Vec<char>)
    ensures
        r@ == trim_spec(v@),
{
    let a = skip_spaces_exec(v, 0);
    let mut b = v.len();
    loop
        invariant
            a <= v@.len(),
            b <= v@.len(),
            a as int == skip_spaces(v@, 0),
            rskip_spaces(v@, v@.len() as int) == rskip_spaces(v@, b as int),
        ensures
            b as int == rskip_spaces(v@, v@.len() as int),
            b <= v@.len(),
        decreases b,
    {
        if b == 0 {
            break;
        }
        let c = v[b - 1];
        let u = c as u32;
        if !(u == 32 || u == 9 || u == 10 || u == 13 || u == 11 || u == 12) {
            break;
        }
        b = b - 1;
    }
    let mut r: Vec<char> = Vec::new();
    if a >= b {
        proof {
            assert(r@ =~= trim_spec(v@));
        }
        return r;
    }
    let mut k = a;
    while k < b
        invariant
            a <= k <= b <= v@.len(),
            r@ =~= v@.subrange(a as int, k as int),
        decreases b - k,
    {
        r.push(v[k]);
        proof {
            assert(r@ =~= v@.subrange(a as int, k + 1));
        }
        k = k + 1;
    }
    proof {
        assert(r@ =~= trim_spec(v@));
    }
    r
}

/// Split into whitespace-separated tokens.
fn split_tokens(v: &Vec<char>) -> (r: Vec<String>)
    ensures
        views_of(r@) == tokens_from(v@, 0),
{
    let mut r: Vec<String> = Vec::new();
    let mut cur: usize = 0;
    loop
        invariant
            cur <= v@.len(),
            views_of(r@) + tokens_from(v@, cur as int) =~= tokens_from(v@, 0),
        ensures
            views_of(r@) =~= tokens_from(v@, 0),
        decreases v@.len() - cur,
    {
        let a = skip_spaces_exec(v, cur);
        if a == v.len() {
            proof {
                assert(tokens_from(v@, cur as int) =~= Seq::<Seq<char>>::empty());
            }
            break;
        }
        let b = token_end_exec(v, a);
        proof {
            lemma_skip_spaces_shape(v@, cur as int);
            lemma_token_end_shape(v@, a as int);
            assert(b > a);
        }
        let mut tok: Vec<char> = Vec::new();
        let mut k = a;
        while k < b
            invariant
                a <= k <= b <= v@.len(),
                tok@ =~= v@.subrange(a as int, k as int),
            decreases b - k,
        {
            tok.push(v[k]);
            proof {
                assert(tok@ =~= v@.subrange(a as int, k + 1));
            }
            k = k + 1;
        }
        let ghost r_old = r@;
        r.push(chars_to_string(&tok));
        proof {
            assert(views_of(r@) =~= views_of(r_old).push(v@.subrange(a as int, b as int)));
            assert(tokens_from(v@, cur as int) =~= seq![v@.subrange(a as int, b as int)]
                + tokens_from(v@, b as int));
            assert(views_of(r@) + tokens_from(v@, b as int) =~= views_of(r_old) + tokens_from(
                v@,
                cur as int,
            ));
        }
        cur = b;
    }
    r
}

// ---------------------------------------------------------------------------
// Template substitution
// ---------------------------------------------------------------------------

/// The placeholder that an action template may contain.
pub open spec fn placeholder() -> Seq<char> {
    seq!['{', 'a', 'r', 'g', 's', '}']
}

/// The template from index `k` on, with every `{args}` replaced by `args`.
pub open spec fn subst_from(t: Seq<char>, k: int, args: Seq<char>) -> Seq<char>
    decreases t.len() - k,
{
    if k < 0 || k >= t.len() {
        Seq::empty()
    } else if k + 6 <= t.len() && t.subrange(k, k + 6) == placeholder() {
        args + subst_from(t, k + 6, args)
    } else {
        seq![t[k]] + subst_from(t, k + 1, args)
    }
}

/// The template with every `{args}` replaced by `args`.
pub open spec fn subst_spec(template: Seq<char>, args: Seq<char>) -> Seq<char> {
    subst_from(template, 0, args)
}

/// Substitute `args` for every `{args}` in the template.
fn subst_template(template: &Vec<char>, args: &Vec<char>) -> (r: Vec<char>)
    ensures
        r@ == subst_spec(template@, args@),
{
    let mut out: Vec<char> = Vec::new();
    let mut k: usize = 0;
    loop
        invariant
            k <= template@.len(),
            out@ + subst_from(template@, k as int, args@) =~= subst_spec(template@, args@),
        ensures
            out@ =~= subst_spec(template@, args@),
        decreases template@.len() - k,
    {
        if k == template.len() {
            break;
        }
        let ghost out_old = out@;
        let is_ph = template.len() - k >= 6 && template[k] == '{' && template[k + 1] == 'a'
            && template[k + 2] == 'r' && template[k + 3] == 'g' && template[k + 4] == 's'
            && template[k + 5] == '}';
        if is_ph {
            proof {
                assert(template@.subrange(k as int, k + 6) =~= placeholder());
            }
            let mut m: usize = 0;
            while m < args.len()
                invariant
                    m <= args@.len(),
                    out@ =~= out_old + args@.subrange(0, m as int),
                decreases args@.len() - m,
            {
                out.push(args[m]);
                proof {
                    assert(out@ =~= out_old + args@.subrange(0, m + 1));
                }
                m = m + 1;
            }
            proof {
                assert(out@ =~= out_old + args@);
            }
            k = k + 6;
        } else {
            proof {
                if template@.len() - k >= 6 {
                    let sub = template@.subrange(k as int, k + 6);
                    assert(sub[0] == template@[k as int] && sub[1] == template@[k + 1] && sub[2]
                        == template@[k + 2] && sub[3] == template@[k + 3] && sub[4] == template@[k
                        + 4] && sub[5] == template@[k + 5]);
                    assert(placeholder()[0] == '{' && placeholder()[1] == 'a' && placeholder()[2]
                        == 'r' && placeholder()[3] == 'g' && placeholder()[4] == 's'
                        && placeholder()[5] == '}');
                    assert(sub != placeholder());
                }
            }
            out.push(template[k]);
            k = k + 1;
        }
    }
    out
}

// ---------------------------------------------------------------------------
// Trigger matching through the regex engine
// ---------------------------------------------------------------------------

/// What `regex::escape` returns for a string: a pattern that matches it
/// literally. The result depends on the characters alone.
pub uninterp spec fn regex_escaped(s: Seq<char>) -> Seq<char>;

/// Relies on `regex::escape`: the returned pattern matches the input text
/// literally, character for character.
#[verifier::external_body]
fn regex_escape(s: &str) -> (r: String)
    ensures
        r@ == regex_escaped(s@),
{
    regex::escape(s)
}

/// What compiling `pattern` and matching it against `text` yields: `None`
/// when the pattern does not compile, `Some(None)` when it compiles but does
/// not match, and `Some(Some(a))` when it matches with `a` as the text of
/// capture group 1 (empty if the group did not participate). Compilation and
/// matching depend on the pattern and text alone.
pub uninterp spec fn trigger_capture(pattern: Seq<char>, text: Seq<char>) -> Option<
    Option<Seq<char>>,
>;

/// Relies on `regex::Regex::new` and `regex::Regex::captures`, used together
/// exactly as [`trigger_capture`] describes; the two calls form one matching
/// step and are deterministic in `pattern` and `text`.
#[verifier::external_body]
fn regex_capture_first(pattern: &str, text: &str) -> (r: Option<Option<String>>)
    ensures
        match r {
            None => trigger_capture(pattern@, text@) is None,
            Some(None) => trigger_capture(pattern@, text@) == Some(None::<Seq<char>>),
            Some(Some(a)) => trigger_capture(pattern@, text@) == Some(Some(a@)),
        },
{
    match regex::Regex::new(pattern) {
        Err(_) => None,
        Ok(re) => match re.captures(text) {
            None => Some(None),
            Some(caps) => Some(
                Some(caps.get(1).map_or(String::new(), |m| m.as_str().to_string())),
            ),
        },
    }
}

/// The pattern built for a trigger: case-insensitive, anchored at the start,
/// the escaped trigger, then the trailing text as capture group 1.
pub open spec fn trigger_pattern_spec(trigger: Seq<char>) -> Seq<char> {
    "(?i)^\\s*"@ + regex_escaped(trigger) + "\\s*(.*)$"@
}

/// Build the matching pattern for one trigger phrase.
fn build_trigger_pattern(trigger: &str) -> (r: String)
    ensures
        r@ == trigger_pattern_spec(trigger@),
{
    let escaped = regex_escape(trigger);
    let mut p = String::new();
    p.append("(?i)^\\s*");
    p.append(escaped.as_str());
    p.append("\\s*(.*)$");
    proof {
        assert(p@ =~= trigger_pattern_spec(trigger@));
    }
    p
}

// ---------------------------------------------------------------------------
// Dispatch
// ---------------------------------------------------------------------------

/// What command interpretation decides, stated over the views of the
/// configured actions and [`trigger_capture`].
pub enum CommandDecision {
    /// No trigger matched; the caller falls back to literal typing.
    NoMatch,
    /// A `Type` action matched: this text goes to keyboard output.
    Typed(Seq<char>),
    /// An `Exec` action matched: launch this program with these arguments.
    Launch(Seq<char>, Seq<Seq<char>>),
    /// An `Exec` action matched but its substituted template holds no
    /// tokens.
    EmptyCommand,
}

/// The decision for `text` against the triggers from index `k` on: the first
/// trigger whose pattern compiles and matches wins; its captured trailing
/// text, trimmed, substitutes for `{args}` in the action's template.
pub open spec fn spec_dispatch(
    cmds: Seq<(String, CommandAction)>,
    text: Seq<char>,
    k: int,
) -> CommandDecision
    decreases cmds.len() - k,
{
    if k < 0 || k >= cmds.len() {
        CommandDecision::NoMatch
    } else {
        match trigger_capture(trigger_pattern_spec(cmds[k].0@), text) {
            None => spec_dispatch(cmds, text, k + 1),
            Some(None) => spec_dispatch(cmds, text, k + 1),
            Some(Some(raw)) => {
                let args = trim_spec(raw);
                match cmds[k].1 {
                    CommandAction::Type(template) => CommandDecision::Typed(
                        subst_spec(template@, args),
                    ),
                    CommandAction::Exec(template) => {
                        let toks = tokens_from(subst_spec(template@, args), 0);
                        if toks.len() == 0 {
                            CommandDecision::EmptyCommand
                        } else {
                            CommandDecision::Launch(toks[0], toks.skip(1))
                        }
                    },
                }
            },
        }
    }
}

/// Interpret a final transcription against the configured commands.
///
/// `Ok(None)` when no trigger matches, so the caller may fall back to
/// literal typing; `Ok(Some(..))` with what to do when one does;
/// `Err(ExecutionError)` exactly when a matched `Exec` template substitutes
/// to an empty command line.
pub fn process_command(text: &str, commands: &Vec<(String, CommandAction)>) -> (r: Result<
    Option<CommandOutcome>,
    CommandError,
>)
    ensures
        ({
            let d = spec_dispatch(commands@, text@, 0);
            match r {
                Ok(None) => d == CommandDecision::NoMatch,
                Ok(Some(CommandOutcome::Typed(t))) => d == CommandDecision::Typed(t@),
                Ok(Some(CommandOutcome::Launch { program, args })) => d == CommandDecision::Launch(
                    program@,
                    views_of(args@),
                ),
                Err(CommandError::ExecutionError(m)) => d == CommandDecision::EmptyCommand && m@
                    == "Empty command"@,
                Err(CommandError::ParseError(_)) => false,
            }
        }),
{
    let mut k: usize = 0;
    loop
        invariant
            k <= commands@.len(),
            spec_dispatch(commands@, text@, 0) == spec_dispatch(commands@, text@, k as int),
        ensures
            spec_dispatch(commands@, text@, 0) == CommandDecision::NoMatch,
        decreases commands@.len() - k,
    {
        if k == commands.len() {
            break;
        }
        let pair = &commands[k];
        let pattern = build_trigger_pattern(pair.0.as_str());
        match regex_capture_first(pattern.as_str(), text) {
            None => {
                k = k + 1;
            },
            Some(None) => {
                k = k + 1;
            },
            Some(Some(raw)) => {
                let raw_chars = str_to_chars(raw.as_str());
                let args = trim_chars(&raw_chars);
                match &pair.1 {
                    CommandAction::Type(template) => {
                        let template_chars = str_to_chars(template.as_str());
                        let out = subst_template(&template_chars, &args);
                        return Ok(Some(CommandOutcome::Typed(chars_to_string(&out))));
                    },
                    CommandAction::Exec(template) => {
                        let template_chars = str_to_chars(template.as_str());
                        let cmdline = subst_template(&template_chars, &args);
                        let toks = split_tokens(&cmdline);
                        if toks.len() == 0 {
                            return Err(
                                CommandError::ExecutionError(String::from_str("Empty command")),
                            );
                        }
                        let ghost toks_views = views_of(toks@);
                        let mut rest = toks;
                        let program = rest.remove(0);
                        proof {
                            assert(program@ == toks_views[0]);
                            assert(views_of(rest@) =~= toks_views.skip(1));
                        }
                        return Ok(Some(CommandOutcome::Launch { program, args: rest }));
                    },
                }
            },
        }
    }
    Ok(None)
}

} // verus!
