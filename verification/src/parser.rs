//! The pipeline parser: command-line text to a structured [`Pipeline`] of
//! [`Command`]s with [`Redirection`]s and a background flag.
//!
//! Grammar: a pipeline is one or more commands separated by `|`, optionally
//! followed by a trailing `&`. A command is a whitespace-separated run of
//! tokens; a token is a double-quoted string (contents taken verbatim) or a
//! run of characters excluding space, `|`, `>`, `<` and `&`. Redirection
//! operators are recognised longest first — `2>&1`, `>>`, `2>`, `>` — and
//! each except `2>&1` consumes the following token as its target path.
//! Parsing is greedy, left to right, with no backtracking across commands;
//! whatever cannot be consumed is returned as the remainder.

use vstd::prelude::*;

use crate::text::{
    chars_to_string_range, scan, scan_exec, lemma_scan, lemma_scan_is, match_at, spec_join,
    lemma_join_left, to_chars, CharClass,
};

verus! {

/// One per-command routing instruction: where stdout or stderr of that
/// command goes instead of the default stream.
#[derive(Debug, PartialEq, Clone)]
pub enum Redirection {
    /// `> path`: stdout to the file, truncating.
    Stdout(String),
    /// `2> path`: stderr to the file, truncating.
    Stderr(String),
    /// `>> path`: stdout appended to the file.
    Append(String),
    /// `2>&1`: stderr onto stdout.
    StderrToStdout,
}

/// The mathematical value of a [`Redirection`].
pub enum RedirModel {
    Stdout(Seq<char>),
    Stderr(Seq<char>),
    Append(Seq<char>),
    StderrToStdout,
}

impl View for Redirection {
    type V = RedirModel;

    open spec fn view(&self) -> RedirModel {
        match self {
            Redirection::Stdout(p) => RedirModel::Stdout(p@),
            Redirection::Stderr(p) => RedirModel::Stderr(p@),
            Redirection::Append(p) => RedirModel::Append(p@),
            Redirection::StderrToStdout => RedirModel::StderrToStdout,
        }
    }
}

/// One pipeline stage: its argument words (`args[0]` is the program or
/// built-in name) and its redirections, in the order they were written.
#[derive(Debug, PartialEq, Clone)]
pub struct Command {
    pub args: Vec<String>,
    pub redirections: Vec<Redirection>,
}

/// The mathematical value of a [`Command`].
pub struct CommandModel {
    pub args: Seq<Seq<char>>,
    pub redirections: Seq<RedirModel>,
}

impl View for Command {
    type V = CommandModel;

    open spec fn view(&self) -> CommandModel {
        CommandModel {
            args: Seq::new(self.args@.len(), |i: int| self.args@[i]@),
            redirections: Seq::new(self.redirections@.len(), |i: int| self.redirections@[i]@),
        }
    }
}

/// An ordered chain of commands, stdout of each feeding stdin of the next,
/// and whether the chain runs in the background.
#[derive(Debug, PartialEq, Clone)]
pub struct Pipeline {
    pub commands: Vec<Command>,
    pub background: bool,
}

/// The mathematical value of a [`Pipeline`].
pub struct PipelineModel {
    pub commands: Seq<CommandModel>,
    pub background: bool,
}

impl View for Pipeline {
    type V = PipelineModel;

    open spec fn view(&self) -> PipelineModel {
        PipelineModel {
            commands: Seq::new(self.commands@.len(), |i: int| self.commands@[i]@),
            background: self.background,
        }
    }
}

/// A parse failure. The grammar accepts every input (unparsable trailing
/// text is returned as the remainder), so no function here produces one;
/// the type exists so callers can speak of the failure case.
#[derive(Debug, PartialEq, Clone)]
pub struct ParseError {
    /// The text at which parsing stopped.
    pub at: String,
}

/// The first position at or after `i` that is not whitespace.
pub open spec fn ws_end(s: Seq<char>, i: int) -> int {
    scan(s, i, CharClass::Wsp)
}

/// One argument token read at `i`: either a double-quoted string (at least
/// one character, with a closing quote) or a maximal nonempty run of word
/// characters. Returns the token's text and the position after it.
pub open spec fn try_arg(s: Seq<char>, i: int) -> Option<(Seq<char>, int)> {
    let we = scan(s, i, CharClass::WordChar);
    let word: Option<(Seq<char>, int)> = if we > i {
        Some((s.subrange(i, we), we))
    } else {
        None
    };
    if 0 <= i < s.len() && s[i] == '"' {
        let q = scan(s, i + 1, CharClass::NotChar('"'));
        if q > i + 1 && q < s.len() {
            Some((s.subrange(i + 1, q), q + 1))
        } else {
            word
        }
    } else {
        word
    }
}

/// A successful argument token lies within the string and consumes at
/// least one character.
pub proof fn lemma_try_arg(s: Seq<char>, i: int)
    requires
        0 <= i <= s.len(),
    ensures
        match try_arg(s, i) {
            Some(t) => i < t.1 <= s.len(),
            None => true,
        },
{
    lemma_scan(s, i, CharClass::WordChar);
    if i < s.len() && s[i] == '"' {
        lemma_scan(s, i + 1, CharClass::NotChar('"'));
    }
}

pub open spec fn lit_merge() -> Seq<char> {
    seq!['2', '>', '&', '1']
}

pub open spec fn lit_append() -> Seq<char> {
    seq!['>', '>']
}

pub open spec fn lit_errout() -> Seq<char> {
    seq!['2', '>']
}

pub open spec fn lit_out() -> Seq<char> {
    seq!['>']
}

/// One redirection operator read at `i`, longest first: `2>&1`, then `>>`,
/// `2>` and `>`, each of the latter three followed by optional whitespace
/// and an argument token naming the target path. Returns the redirection
/// and the position after it; `None` if no operator with its required
/// target starts here.
pub open spec fn try_redir(s: Seq<char>, i: int) -> Option<(RedirModel, int)> {
    if match_at(s, lit_merge(), i) {
        Some((RedirModel::StderrToStdout, i + 4))
    } else if match_at(s, lit_append(), i) && try_arg(s, ws_end(s, i + 2)) is Some {
        let t = try_arg(s, ws_end(s, i + 2))->Some_0;
        Some((RedirModel::Append(t.0), t.1))
    } else if match_at(s, lit_errout(), i) && try_arg(s, ws_end(s, i + 2)) is Some {
        let t = try_arg(s, ws_end(s, i + 2))->Some_0;
        Some((RedirModel::Stderr(t.0), t.1))
    } else if match_at(s, lit_out(), i) && try_arg(s, ws_end(s, i + 1)) is Some {
        let t = try_arg(s, ws_end(s, i + 1))->Some_0;
        Some((RedirModel::Stdout(t.0), t.1))
    } else {
        None
    }
}

/// A successful redirection lies within the string and consumes at least
/// one character.
pub proof fn lemma_try_redir(s: Seq<char>, i: int)
    requires
        0 <= i <= s.len(),
    ensures
        match try_redir(s, i) {
            Some(t) => i < t.1 <= s.len(),
            None => true,
        },
{
    if match_at(s, lit_merge(), i) {
    } else {
        if i + 2 <= s.len() {
            lemma_scan(s, i + 2, CharClass::Wsp);
            lemma_try_arg(s, ws_end(s, i + 2));
        }
        if i + 1 <= s.len() {
            lemma_scan(s, i + 1, CharClass::Wsp);
            lemma_try_arg(s, ws_end(s, i + 1));
        }
    }
}

/// Reads one argument token at `i`, if any.
pub fn try_arg_exec(v: &Vec<char>, i: usize) -> (r: Option<(String, usize)>)
    requires
        i <= v@.len(),
    ensures
        match r {
            Some(t) => {
                &&& try_arg(v@, i as int) is Some
                &&& t.0@ == try_arg(v@, i as int)->Some_0.0
                &&& t.1 as int == try_arg(v@, i as int)->Some_0.1
                &&& i < t.1 <= v@.len()
            },
            None => try_arg(v@, i as int) is None,
        },
{
    proof {
        lemma_try_arg(v@, i as int);
        lemma_scan(v@, i as int, CharClass::WordChar);
    }
    if i < v.len() && v[i] == '"' {
        let q = scan_exec(v, i + 1, CharClass::NotChar('"'));
        proof {
            lemma_scan(v@, i + 1int, CharClass::NotChar('"'));
        }
        if q > i + 1 && q < v.len() {
            let content = chars_to_string_range(v, i + 1, q);
            return Some((content, q + 1));
        }
    }
    let we = scan_exec(v, i, CharClass::WordChar);
    if we > i {
        let word = chars_to_string_range(v, i, we);
        Some((word, we))
    } else {
        None
    }
}

fn match_merge(v: &Vec<char>, i: usize) -> (r: bool)
    requires
        i <= v@.len(),
    ensures
        r == match_at(v@, lit_merge(), i as int),
{
    let n = v.len();
    let r = n - i >= 4 && v[i] == '2' && v[i + 1] == '>' && v[i + 2] == '&' && v[i + 3] == '1';
    proof {
        if i + 4 <= v@.len() {
            let sub = v@.subrange(i as int, i + 4int);
            assert(sub.len() == 4 && sub[0] == v@[i as int] && sub[1] == v@[i + 1int] && sub[2]
                == v@[i + 2int] && sub[3] == v@[i + 3int]);
            if r {
                assert(sub =~= lit_merge());
            } else {
                assert(sub != lit_merge());
            }
        }
    }
    r
}

fn match_two(v: &Vec<char>, i: usize, a: char, b: char) -> (r: bool)
    requires
        i <= v@.len(),
    ensures
        r == match_at(v@, seq![a, b], i as int),
{
    let n = v.len();
    let r = n - i >= 2 && v[i] == a && v[i + 1] == b;
    proof {
        if i + 2 <= v@.len() {
            let sub = v@.subrange(i as int, i + 2int);
            assert(sub.len() == 2 && sub[0] == v@[i as int] && sub[1] == v@[i + 1int]);
            if r {
                assert(sub =~= seq![a, b]);
            } else {
                assert(sub != seq![a, b]);
            }
        }
    }
    r
}

fn match_one(v: &Vec<char>, i: usize, a: char) -> (r: bool)
    requires
        i <= v@.len(),
    ensures
        r == match_at(v@, seq![a], i as int),
{
    let n = v.len();
    let r = n - i >= 1 && v[i] == a;
    proof {
        if i + 1 <= v@.len() {
            let sub = v@.subrange(i as int, i + 1int);
            assert(sub.len() == 1 && sub[0] == v@[i as int]);
            if r {
                assert(sub =~= seq![a]);
            } else {
                assert(sub != seq![a]);
            }
        }
    }
    r
}

/// Reads one redirection operator (with its target, where required) at
/// `i`, if any.
pub fn try_redir_exec(v: &Vec<char>, i: usize) -> (r: Option<(Redirection, usize)>)
    requires
        i <= v@.len(),
    ensures
        match r {
            Some(t) => {
                &&& try_redir(v@, i as int) is Some
                &&& t.0@ == try_redir(v@, i as int)->Some_0.0
                &&& t.1 as int == try_redir(v@, i as int)->Some_0.1
                &&& i < t.1 <= v@.len()
            },
            None => try_redir(v@, i as int) is None,
        },
{
    let n = v.len();
    proof {
        lemma_try_redir(v@, i as int);
    }
    if match_merge(v, i) {
        proof {
            assert(lit_merge().len() == 4);
        }
        return Some((Redirection::StderrToStdout, i + 4));
    }
    if match_two(v, i, '>', '>') {
        let after = scan_exec(v, i + 2, CharClass::Wsp);
        if let Some((path, k)) = try_arg_exec(v, after) {
            return Some((Redirection::Append(path), k));
        }
    }
    if match_two(v, i, '2', '>') {
        let after = scan_exec(v, i + 2, CharClass::Wsp);
        if let Some((path, k)) = try_arg_exec(v, after) {
            return Some((Redirection::Stderr(path), k));
        }
    }
    if match_one(v, i, '>') {
        let after = scan_exec(v, i + 1, CharClass::Wsp);
        if let Some((path, k)) = try_arg_exec(v, after) {
            return Some((Redirection::Stdout(path), k));
        }
    }
    None
}

/// The result of reading one command's tokens: its argument words, its
/// redirections, and the position where the command ended.
pub struct TokensOut {
    pub args: Seq<Seq<char>>,
    pub redirs: Seq<RedirModel>,
    pub end: int,
}

/// Reads one command starting at `i`: whitespace-separated tokens, each a
/// redirection if one can be read here, otherwise an argument word; stops
/// at the end of input, at `|` or `&`, or at a character no token can
/// start with.
pub open spec fn parse_tokens(s: Seq<char>, i: int) -> TokensOut
    decreases s.len() - i,
    when 0 <= i <= s.len()
{
    let j = ws_end(s, i);
    if j >= s.len() || s[j] == '|' || s[j] == '&' {
        TokensOut { args: Seq::empty(), redirs: Seq::empty(), end: j }
    } else if try_redir(s, j) is Some {
        let t = try_redir(s, j)->Some_0;
        proof {
            lemma_scan(s, i, CharClass::Wsp);
            lemma_try_redir(s, j);
        }
        let rest = parse_tokens(s, t.1);
        TokensOut { args: rest.args, redirs: seq![t.0] + rest.redirs, end: rest.end }
    } else if try_arg(s, j) is Some {
        let t = try_arg(s, j)->Some_0;
        proof {
            lemma_scan(s, i, CharClass::Wsp);
            lemma_try_arg(s, j);
        }
        let rest = parse_tokens(s, t.1);
        TokensOut { args: seq![t.0] + rest.args, redirs: rest.redirs, end: rest.end }
    } else {
        TokensOut { args: Seq::empty(), redirs: Seq::empty(), end: j }
    }
}

/// A command's tokens end within the string, at or after where they began.
pub proof fn lemma_parse_tokens(s: Seq<char>, i: int)
    requires
        0 <= i <= s.len(),
    ensures
        i <= parse_tokens(s, i).end <= s.len(),
    decreases s.len() - i,
{
    lemma_scan(s, i, CharClass::Wsp);
    let j = ws_end(s, i);
    if j >= s.len() || s[j] == '|' || s[j] == '&' {
    } else if try_redir(s, j) is Some {
        lemma_try_redir(s, j);
        lemma_parse_tokens(s, try_redir(s, j)->Some_0.1);
    } else if try_arg(s, j) is Some {
        lemma_try_arg(s, j);
        lemma_parse_tokens(s, try_arg(s, j)->Some_0.1);
    }
}

/// Reads one command starting at `i`, returning it and the position where
/// it ended.
pub fn parse_command_at(v: &Vec<char>, i: usize) -> (r: (Command, usize))
    requires
        i <= v@.len(),
    ensures
        r.0@.args == parse_tokens(v@, i as int).args,
        r.0@.redirections == parse_tokens(v@, i as int).redirs,
        r.1 as int == parse_tokens(v@, i as int).end,
        i <= r.1 <= v@.len(),
{
    let ghost t0 = parse_tokens(v@, i as int);
    let mut args: Vec<String> = Vec::new();
    let mut redirs: Vec<Redirection> = Vec::new();
    let mut pos: usize = i;
    let end: usize;
    proof {
        assert(strs_view_args(args@) =~= Seq::<Seq<char>>::empty());
        assert(redirs_view(redirs@) =~= Seq::<RedirModel>::empty());
        assert(t0.args =~= strs_view_args(args@) + parse_tokens(v@, pos as int).args);
        assert(t0.redirs =~= redirs_view(redirs@) + parse_tokens(v@, pos as int).redirs);
    }
    loop
        invariant
            i <= pos <= v@.len(),
            t0 == parse_tokens(v@, i as int),
            t0.args =~= strs_view_args(args@) + parse_tokens(v@, pos as int).args,
            t0.redirs =~= redirs_view(redirs@) + parse_tokens(v@, pos as int).redirs,
            t0.end == parse_tokens(v@, pos as int).end,
        ensures
            i <= pos <= v@.len(),
            t0.args =~= strs_view_args(args@),
            t0.redirs =~= redirs_view(redirs@),
            t0.end == pos,
        decreases v@.len() - pos,
    {
        let ghost cur = parse_tokens(v@, pos as int);
        let j = scan_exec(v, pos, CharClass::Wsp);
        proof {
            lemma_scan(v@, pos as int, CharClass::Wsp);
            lemma_parse_tokens(v@, pos as int);
        }
        if j >= v.len() || v[j] == '|' || v[j] == '&' {
            pos = j;
            proof {
                assert(parse_tokens(v@, j as int).end == j) by {
                    assert(ws_end(v@, j as int) == j as int);
                };
            }
            break;
        }
        if let Some((red, k)) = try_redir_exec(v, j) {
            redirs.push(red);
            proof {
                assert(redirs_view(redirs@) =~= redirs_view(redirs@.drop_last()).push(red@));
                assert(cur.args == parse_tokens(v@, k as int).args);
                assert(cur.redirs =~= seq![red@] + parse_tokens(v@, k as int).redirs);
                assert(t0.redirs =~= redirs_view(redirs@) + parse_tokens(v@, k as int).redirs);
            }
            pos = k;
        } else if let Some((word, k)) = try_arg_exec(v, j) {
            args.push(word);
            proof {
                let wv = args@[args@.len() - 1]@;
                assert(strs_view_args(args@) =~= strs_view_args(args@.drop_last()).push(wv));
                assert(cur.redirs == parse_tokens(v@, k as int).redirs);
                assert(cur.args =~= seq![wv] + parse_tokens(v@, k as int).args);
                assert(t0.args =~= strs_view_args(args@) + parse_tokens(v@, k as int).args);
            }
            pos = k;
        } else {
            pos = j;
            proof {
                assert(parse_tokens(v@, j as int).end == j) by {
                    assert(ws_end(v@, j as int) == j as int);
                };
            }
            break;
        }
    }
    end = pos;
    let cmd = Command { args, redirections: redirs };
    proof {
        assert(cmd@.args =~= t0.args);
        assert(cmd@.redirections =~= t0.redirs);
    }
    (cmd, end)
}

/// The views of a vector of argument strings.
pub open spec fn strs_view_args(v: Seq<String>) -> Seq<Seq<char>> {
    Seq::new(v.len(), |i: int| v[i]@)
}

/// The views of a vector of redirections.
pub open spec fn redirs_view(v: Seq<Redirection>) -> Seq<RedirModel> {
    Seq::new(v.len(), |i: int| v[i]@)
}

/// The result of reading the `|`-separated command list: the commands and
/// the position where the list ended.
pub struct CmdsOut {
    pub cmds: Seq<CommandModel>,
    pub end: int,
}

/// Reads one or more commands separated by `|` (with optional whitespace
/// around the bar), starting at `i`. When no further `|` follows a
/// command, the list ends where that command ended.
pub open spec fn parse_cmds(s: Seq<char>, i: int) -> CmdsOut
    decreases s.len() - i,
    when 0 <= i <= s.len()
{
    let t = parse_tokens(s, i);
    let cmd = CommandModel { args: t.args, redirections: t.redirs };
    proof {
        lemma_parse_tokens(s, i);
        lemma_scan(s, t.end, CharClass::Wsp);
    }
    let j2 = ws_end(s, t.end);
    if j2 < s.len() && s[j2] == '|' {
        let rest = parse_cmds(s, j2 + 1);
        CmdsOut { cmds: seq![cmd] + rest.cmds, end: rest.end }
    } else {
        CmdsOut { cmds: seq![cmd], end: t.end }
    }
}

/// The command list is never empty and ends within the string, at or after
/// where it began.
pub proof fn lemma_parse_cmds(s: Seq<char>, i: int)
    requires
        0 <= i <= s.len(),
    ensures
        i <= parse_cmds(s, i).end <= s.len(),
        parse_cmds(s, i).cmds.len() >= 1,
    decreases s.len() - i,
{
    lemma_parse_tokens(s, i);
    let t = parse_tokens(s, i);
    lemma_scan(s, t.end, CharClass::Wsp);
    let j2 = ws_end(s, t.end);
    if j2 < s.len() && s[j2] == '|' {
        lemma_parse_cmds(s, j2 + 1);
    }
}

/// What the parser reads from a whole line: the commands, the background
/// flag, and the position where the consumed part ends (the remainder
/// starts there).
pub struct ParseOut {
    pub cmds: Seq<CommandModel>,
    pub background: bool,
    pub end: int,
}

/// The whole grammar: the command list, optional whitespace, and an
/// optional trailing `&` that marks the pipeline as background.
pub open spec fn spec_parse(s: Seq<char>) -> ParseOut {
    let c = parse_cmds(s, 0);
    let q = ws_end(s, c.end);
    if q < s.len() && s[q] == '&' {
        ParseOut { cmds: c.cmds, background: true, end: q + 1 }
    } else {
        ParseOut { cmds: c.cmds, background: false, end: q }
    }
}

/// The views of a vector of commands.
pub open spec fn cmds_view(v: Seq<Command>) -> Seq<CommandModel> {
    Seq::new(v.len(), |i: int| v[i]@)
}

/// Parses a command line into a [`Pipeline`].
///
/// The grammar accepts every input: parsing always succeeds, and whatever
/// could not be consumed (for instance text after a stray `<`) is returned
/// as the remainder, exactly as [`spec_parse`] describes. The parsed
/// pipeline always holds at least one command, though a command may have
/// no arguments (as between two adjacent bars); such empty commands are
/// preserved and the executor skips them.
pub fn parse_pipeline(input: &str) -> (r: Result<(String, Pipeline), ParseError>)
    ensures
        r is Ok,
        ({
            let (rem, p) = r->Ok_0;
            &&& p@.commands == spec_parse(input@).cmds
            &&& p@.background == spec_parse(input@).background
            &&& p@.commands.len() >= 1
            &&& rem@ == input@.subrange(spec_parse(input@).end, input@.len() as int)
        }),
{
    let v = to_chars(input);
    let ghost c0 = parse_cmds(v@, 0);
    let mut commands: Vec<Command> = Vec::new();
    let mut pos: usize = 0;
    let list_end: usize;
    proof {
        assert(cmds_view(commands@) =~= Seq::<CommandModel>::empty());
        assert(c0.cmds =~= cmds_view(commands@) + parse_cmds(v@, pos as int).cmds);
    }
    loop
        invariant_except_break
            c0.cmds =~= cmds_view(commands@) + parse_cmds(v@, pos as int).cmds,
            c0.end == parse_cmds(v@, pos as int).end,
        invariant
            0 <= pos <= v@.len(),
            c0 == parse_cmds(v@, 0),
        ensures
            0 <= pos <= v@.len(),
            c0.cmds =~= cmds_view(commands@),
            c0.end == pos,
        decreases v@.len() - pos,
    {
        let ghost cur = parse_cmds(v@, pos as int);
        let (cmd, e) = parse_command_at(&v, pos);
        commands.push(cmd);
        proof {
            lemma_parse_tokens(v@, pos as int);
            lemma_scan(v@, e as int, CharClass::Wsp);
            assert(cmds_view(commands@) =~= cmds_view(commands@.drop_last()).push(
                commands@.last()@,
            ));
            assert(commands@.last()@.args =~= parse_tokens(v@, pos as int).args);
            assert(commands@.last()@.redirections =~= parse_tokens(v@, pos as int).redirs);
        }
        let j2 = scan_exec(&v, e, CharClass::Wsp);
        if j2 < v.len() && v[j2] == '|' {
            proof {
                assert(cur.cmds =~= seq![commands@.last()@] + parse_cmds(v@, j2 + 1int).cmds);
                assert(c0.cmds =~= cmds_view(commands@) + parse_cmds(v@, j2 + 1int).cmds);
            }
            pos = j2 + 1;
        } else {
            proof {
                assert(cur.cmds =~= seq![commands@.last()@]);
                assert(c0.cmds =~= cmds_view(commands@));
            }
            pos = e;
            break;
        }
    }
    list_end = pos;
    let q = scan_exec(&v, list_end, CharClass::Wsp);
    proof {
        lemma_parse_cmds(v@, 0);
    }
    let (background, rem_start) = if q < v.len() && v[q] == '&' {
        (true, q + 1)
    } else {
        (false, q)
    };
    let remainder = chars_to_string_range(&v, rem_start, v.len());
    let p = Pipeline { commands, background };
    proof {
        assert(p@.commands =~= spec_parse(input@).cmds);
    }
    Ok((remainder, p))
}

/// A character that survives the grammar untouched: not whitespace, not
/// an operator, not a quote.
pub open spec fn plain_char(c: char) -> bool {
    !crate::text::is_wsp(c) && c != '|' && c != '>' && c != '<' && c != '&' && c != '"'
}

/// A nonempty word of plain characters.
pub open spec fn plain_word(w: Seq<char>) -> bool {
    w.len() > 0 && forall|k: int| 0 <= k < w.len() ==> plain_char(#[trigger] w[k])
}

/// A pipeline stage of at least one plain word.
pub open spec fn plain_stage(words: Seq<Seq<char>>) -> bool {
    words.len() >= 1 && forall|j: int| 0 <= j < words.len() ==> plain_word(#[trigger] words[j])
}

/// At least one stage, all of plain words.
pub open spec fn plain_stages(stages: Seq<Seq<Seq<char>>>) -> bool {
    stages.len() >= 1 && forall|i: int|
        0 <= i < stages.len() ==> plain_stage(#[trigger] stages[i])
}

/// The canonical text of such a pipeline: words joined with single
/// spaces, stages joined with ` | `.
pub open spec fn build_line(stages: Seq<Seq<Seq<char>>>) -> Seq<char> {
    spec_join(Seq::new(stages.len(), |i: int| spec_join(stages[i], seq![' '])), seq![
        ' ',
        '|',
        ' ',
    ])
}

/// An optional single leading space.
pub open spec fn lead_seq(lead: bool) -> Seq<char> {
    if lead {
        seq![' ']
    } else {
        Seq::<char>::empty()
    }
}

/// No redirection operator can start at a position whose character is not
/// `>` and whose successor is not `>` either.
proof fn lemma_no_redir_here(s: Seq<char>, j: int)
    requires
        0 <= j < s.len(),
        s[j] != '>',
        j + 1 < s.len() ==> s[j + 1] != '>',
    ensures
        try_redir(s, j) is None,
{
    if match_at(s, lit_merge(), j) {
        assert(s.subrange(j, j + 4)[1] == s[j + 1]);
        assert(lit_merge()[1] == '>');
        assert(false);
    }
    if match_at(s, lit_append(), j) {
        assert(s.subrange(j, j + 2)[0] == s[j]);
        assert(false);
    }
    if match_at(s, lit_errout(), j) {
        assert(s.subrange(j, j + 2)[1] == s[j + 1]);
        assert(false);
    }
    if match_at(s, lit_out(), j) {
        assert(s.subrange(j, j + 1)[0] == s[j]);
        assert(false);
    }
}

/// Reading tokens over a run of plain words (with an optional single
/// leading space) collects exactly those words, finds no redirection, and
/// stops at the end of the run — after the following space when a `|`
/// separator comes next, at the run's end when the input ends there.
#[verifier::rlimit(100)]
proof fn lemma_tokens_plain(s: Seq<char>, i: int, lead: bool, words: Seq<Seq<char>>, rest: Seq<
    char,
>)
    requires
        0 <= i <= s.len(),
        plain_stage(words),
        s.skip(i) =~= lead_seq(lead) + spec_join(words, seq![' ']) + rest,
        rest.len() == 0 || (rest.len() >= 2 && rest[0] == ' ' && rest[1] == '|'),
    ensures
        parse_tokens(s, i).args =~= words,
        parse_tokens(s, i).redirs =~= Seq::<RedirModel>::empty(),
        parse_tokens(s, i).end == i + lead_seq(lead).len() + spec_join(words, seq![' ']).len() + (
        if rest.len() == 0 {
            0int
        } else {
            1int
        }),
    decreases words.len(),
{
    let tail = s.skip(i);
    let ld: int = if lead {
        1
    } else {
        0
    };
    let w0 = words[0];
    let joined = spec_join(words, seq![' ']);
    let full = lead_seq(lead) + joined + rest;
    let j = i + ld;
    if words.len() >= 2 {
        lemma_join_left(words, seq![' ']);
    }
    // Every position of the suffix reads from the concatenation.
    assert forall|p: int| i <= p < s.len() implies #[trigger] s[p] == full[p - i] by {
        assert(tail[p - i] == s[i + (p - i)]);
    }
    assert(s.len() - i == full.len());
    // joined starts with w0 (followed by a space when more words follow).
    assert(forall|k: int| 0 <= k < w0.len() ==> joined[k] == w0[k]);
    assert forall|k: int| 0 <= k < w0.len() implies plain_char(joined[k]) by {
        assert(plain_word(w0));
    }
    // The leading space, if any, is skipped and no more.
    assert(s[j] == joined[0] && joined[0] == w0[0]);
    assert(!crate::text::is_wsp(s[j]));
    assert(forall|k: int| i <= k < j ==> crate::text::is_wsp(#[trigger] s[k]));
    lemma_scan_is(s, i, CharClass::Wsp, j);
    // No `>` at or just after the word start, so no redirection.
    assert(s[j] != '>');
    if j + 1 < s.len() {
        assert(s[j + 1] == full[ld + 1]);
        assert(s[j + 1] != '>') by {
            if w0.len() >= 2 {
                assert(full[ld + 1] == joined[1] && joined[1] == w0[1]);
            } else if words.len() >= 2 {
                assert(joined =~= w0 + seq![' '] + spec_join(words.drop_first(), seq![' ']));
                assert(full[ld + 1] == joined[1] && joined[1] == ' ');
            } else if rest.len() == 0 {
                assert(full.len() == ld + 1);
                assert(false);
            } else {
                assert(joined.len() == w0.len());
                assert(full[ld + 1] == rest[0]);
            }
        };
    }
    lemma_no_redir_here(s, j);
    // The word token is exactly w0.
    let we = j + w0.len();
    assert forall|k: int|
        j <= k < we implies crate::text::in_class(CharClass::WordChar, #[trigger] s[k]) by {
        assert(s[k] == full[k - i]);
        assert(full[k - i] == joined[k - j]);
        assert(plain_char(joined[k - j]));
    }
    if words.len() >= 2 {
        assert(joined =~= w0 + seq![' '] + spec_join(words.drop_first(), seq![' ']));
    }
    assert(we < s.len() ==> !crate::text::in_class(CharClass::WordChar, s[we])) by {
        if we < s.len() {
            if words.len() >= 2 {
                assert(s[we] == full[ld + w0.len()]);
                assert(full[ld + w0.len()] == joined[w0.len() as int]);
                assert(joined[w0.len() as int] == ' ');
            } else if rest.len() > 0 {
                assert(joined.len() == w0.len());
                assert(s[we] == full[ld + w0.len()]);
                assert(full[ld + w0.len()] == rest[0]);
            } else {
                assert(full.len() == ld + w0.len());
                assert(false);
            }
        }
    };
    lemma_scan_is(s, j, CharClass::WordChar, we);
    assert(s[j] != '"');
    assert(try_arg(s, j) == Some((s.subrange(j, we), we)));
    assert(s.subrange(j, we) =~= w0) by {
        assert forall|k: int| 0 <= k < w0.len() implies #[trigger] s.subrange(j, we)[k]
            == w0[k] by {
            assert(s.subrange(j, we)[k] == s[j + k]);
            assert(s[j + k] == full[(j + k) - i]);
            assert(full[ld + k] == joined[k]);
        }
    };
    if words.len() == 1 {
        // After the single word: end of input, or the separator space.
        if rest.len() == 0 {
            assert(we == s.len());
            lemma_scan_is(s, we, CharClass::Wsp, we);
            assert(parse_tokens(s, we).args =~= Seq::<Seq<char>>::empty());
            assert(parse_tokens(s, we).end == we);
            assert(parse_tokens(s, i).args =~= seq![w0] + parse_tokens(s, we).args);
            assert(parse_tokens(s, i).args =~= words) by {
                assert(words =~= seq![w0]);
            };
            assert(joined.len() == w0.len());
        } else {
            assert(s[we] == ' ' && s[we + 1] == '|') by {
                assert(joined.len() == w0.len());
                assert(s[we] == full[ld + w0.len()]);
                assert(full[ld + w0.len()] == rest[0]);
                assert(s[we + 1] == full[ld + w0.len() + 1]);
                assert(full[ld + w0.len() + 1] == rest[1]);
            };
            lemma_scan_is(s, we, CharClass::Wsp, we + 1);
            assert(parse_tokens(s, we).args =~= Seq::<Seq<char>>::empty());
            assert(parse_tokens(s, we).end == we + 1);
            assert(parse_tokens(s, i).args =~= seq![w0] + parse_tokens(s, we).args);
            assert(parse_tokens(s, i).args =~= words) by {
                assert(words =~= seq![w0]);
            };
            assert(joined.len() == w0.len());
        }
    } else {
        // A space, then the remaining words; recurse after the word.
        assert(joined =~= w0 + seq![' '] + spec_join(words.drop_first(), seq![' ']));
        assert(s.skip(we) =~= lead_seq(true) + spec_join(words.drop_first(), seq![' '])
            + rest) by {
            assert forall|k: int| 0 <= k < s.len() - we implies #[trigger] s.skip(we)[k] == (
            lead_seq(true) + spec_join(words.drop_first(), seq![' ']) + rest)[k] by {
                assert(s.skip(we)[k] == s[we + k]);
                assert(s[we + k] == full[(we + k) - i]);
            }
        };
        assert(plain_stage(words.drop_first())) by {
            assert(forall|j2: int|
                0 <= j2 < words.drop_first().len() ==> (#[trigger] words.drop_first()[j2])
                    == words[j2 + 1]);
        };
        lemma_tokens_plain(s, we, true, words.drop_first(), rest);
        assert(parse_tokens(s, i).args =~= seq![w0] + parse_tokens(s, we).args);
        assert(parse_tokens(s, i).args =~= words) by {
            assert(seq![w0] + words.drop_first() =~= words);
        };
        assert(parse_tokens(s, i).redirs =~= Seq::<RedirModel>::empty());
        assert(joined.len() == w0.len() + 1 + spec_join(words.drop_first(), seq![' ']).len());
    }
}

/// Reading the command list over joined plain stages (with an optional
/// single leading space) yields one command per stage, holding exactly its
/// words and no redirections, and consumes the whole text.
#[verifier::rlimit(100)]
proof fn lemma_cmds_plain(s: Seq<char>, i: int, lead: bool, stages: Seq<Seq<Seq<char>>>)
    requires
        0 <= i <= s.len(),
        plain_stages(stages),
        s.skip(i) =~= lead_seq(lead) + spec_join(
            Seq::new(stages.len(), |k: int| spec_join(stages[k], seq![' '])),
            seq![' ', '|', ' '],
        ),
    ensures
        parse_cmds(s, i).cmds.len() == stages.len(),
        forall|k: int|
            0 <= k < stages.len() ==> (#[trigger] parse_cmds(s, i).cmds[k]).args == stages[k],
        forall|k: int|
            0 <= k < stages.len() ==> (#[trigger] parse_cmds(s, i).cmds[k]).redirections
                == Seq::<RedirModel>::empty(),
        parse_cmds(s, i).end == s.len(),
    decreases stages.len(),
{
    let sep = seq![' ', '|', ' '];
    let strs = Seq::new(stages.len(), |k: int| spec_join(stages[k], seq![' ']));
    let ld: int = if lead {
        1
    } else {
        0
    };
    if stages.len() == 1 {
        assert(strs =~= seq![strs[0]]);
        assert(spec_join(strs, sep) == strs[0]);
        assert(s.skip(i) =~= lead_seq(lead) + spec_join(stages[0], seq![' '])
            + Seq::<char>::empty());
        lemma_tokens_plain(s, i, lead, stages[0], Seq::empty());
        let t = parse_tokens(s, i);
        assert(t.end == s.len()) by {
            assert(s.skip(i).len() == s.len() - i);
        };
        lemma_scan_is(s, t.end, CharClass::Wsp, t.end);
        assert(parse_cmds(s, i).cmds =~= seq![
            CommandModel { args: t.args, redirections: t.redirs },
        ]);
    } else {
        lemma_join_left(strs, sep);
        let rest = sep + spec_join(strs.drop_first(), sep);
        assert(strs[0] == spec_join(stages[0], seq![' ']));
        assert(s.skip(i) =~= lead_seq(lead) + spec_join(stages[0], seq![' ']) + rest) by {
            assert(spec_join(strs, sep) =~= strs[0] + sep + spec_join(strs.drop_first(), sep));
        };
        assert(rest[0] == ' ' && rest[1] == '|');
        lemma_tokens_plain(s, i, lead, stages[0], rest);
        let t = parse_tokens(s, i);
        let stage0_len = spec_join(stages[0], seq![' ']).len();
        assert(t.end == i + ld + stage0_len + 1);
        let full = lead_seq(lead) + spec_join(strs, sep);
        assert forall|p: int| i <= p < s.len() implies #[trigger] s[p] == full[p - i] by {
            assert(s.skip(i)[p - i] == s[i + (p - i)]);
        }
        assert(s.len() - i == full.len());
        assert(s[t.end] == '|') by {
            assert(full[ld + stage0_len + 1] == rest[1]);
        };
        lemma_scan_is(s, t.end, CharClass::Wsp, t.end);
        assert(s[t.end + 1] == ' ') by {
            assert(full[ld + stage0_len + 2] == rest[2]);
        };
        let next = t.end + 1;
        assert(s.skip(next) =~= lead_seq(true) + spec_join(
            Seq::new(stages.drop_first().len(), |k: int| spec_join(
                stages.drop_first()[k],
                seq![' '],
            )),
            sep,
        )) by {
            assert(Seq::new(stages.drop_first().len(), |k: int| spec_join(
                stages.drop_first()[k],
                seq![' '],
            )) =~= strs.drop_first()) by {
                assert(forall|k: int|
                    0 <= k < stages.drop_first().len() ==> (#[trigger] stages.drop_first()[k])
                        == stages[k + 1]);
            };
            assert forall|k: int| 0 <= k < s.len() - next implies #[trigger] s.skip(next)[k] == (
            lead_seq(true) + spec_join(strs.drop_first(), sep))[k] by {
                assert(s.skip(next)[k] == s[next + k]);
                assert(s[next + k] == full[(next + k) - i]);
                assert(full[ld + stage0_len + 2 + k] == rest[2 + k]);
            }
        };
        assert(plain_stages(stages.drop_first())) by {
            assert(forall|k: int|
                0 <= k < stages.drop_first().len() ==> (#[trigger] stages.drop_first()[k])
                    == stages[k + 1]);
        };
        lemma_cmds_plain(s, next, true, stages.drop_first());
        assert(parse_cmds(s, i).cmds =~= seq![
            CommandModel { args: t.args, redirections: t.redirs },
        ] + parse_cmds(s, next).cmds);
        assert forall|k: int| 0 <= k < stages.len() implies (#[trigger] parse_cmds(
            s,
            i,
        ).cmds[k]).args == stages[k] && parse_cmds(s, i).cmds[k].redirections == Seq::<
            RedirModel,
        >::empty() by {
            if k > 0 {
                assert(parse_cmds(s, i).cmds[k] == parse_cmds(s, next).cmds[k - 1]);
                assert(stages.drop_first()[k - 1] == stages[k]);
            }
        }
    }
}

/// Parse round-trip: a pipeline text built from plain words — stages
/// joined with ` | `, words joined with single spaces, no redirections, no
/// quotes, no trailing `&` — parses back to exactly those stages: one
/// command per stage whose `args` are the stage's words, no redirections,
/// foreground, nothing left over.
pub proof fn lemma_parse_round_trip(stages: Seq<Seq<Seq<char>>>)
    requires
        plain_stages(stages),
    ensures
        ({
            let out = spec_parse(build_line(stages));
            &&& out.cmds.len() == stages.len()
            &&& forall|k: int|
                0 <= k < stages.len() ==> (#[trigger] out.cmds[k]).args == stages[k]
            &&& forall|k: int|
                0 <= k < stages.len() ==> (#[trigger] out.cmds[k]).redirections == Seq::<
                    RedirModel,
                >::empty()
            &&& out.background == false
            &&& out.end == build_line(stages).len()
        }),
{
    let s = build_line(stages);
    assert(s.skip(0) =~= lead_seq(false) + spec_join(
        Seq::new(stages.len(), |k: int| spec_join(stages[k], seq![' '])),
        seq![' ', '|', ' '],
    ));
    lemma_cmds_plain(s, 0, false, stages);
    lemma_scan_is(s, s.len() as int, CharClass::Wsp, s.len() as int);
}

} // verus!
