//! Validation of a command invocation against its allowlist entry, and of
//! file paths against the shared file root.
use vstd::prelude::*;
use vstd::string::StringExecFns;

use crate::config::{ArgPattern, CommandConfig, CommandSpec, PatternSpec};
use crate::text::{
    chars_of, contains_char, push_char, is_prefix, is_white_space, lemma_trim_idempotent, lemma_words_chars,
    same_chars, split_words, starts_with, string_of, trim, trim_chars, words,
};

verus! {

/// Characters that could be used for shell injection, in the order in which
/// they are looked for.
pub open spec fn forbidden_chars_spec() -> Seq<char> {
    seq![';', '|', '&', '$', '`', '(', ')', '{', '}', '>', '<', '\n', '\r', '\\']
}

/// Characters that could be used for shell injection.
pub fn forbidden_chars() -> (v: Vec<char>)
    ensures
        v@ == forbidden_chars_spec(),
{
    let v = vec![';', '|', '&', '$', '`', '(', ')', '{', '}', '>', '<', '\n', '\r', '\\'];
    assert(v@ =~= forbidden_chars_spec());
    v
}

/// The first forbidden character, in list order from position `k` on, that occurs in `s`.
pub open spec fn first_forbidden_from(s: Seq<char>, k: int) -> Option<char>
    decreases forbidden_chars_spec().len() - k,
{
    if k < 0 || k >= forbidden_chars_spec().len() {
        None
    } else if s.contains(forbidden_chars_spec()[k]) {
        Some(forbidden_chars_spec()[k])
    } else {
        first_forbidden_from(s, k + 1)
    }
}

/// The first forbidden character, in list order, that occurs in `s`.
pub open spec fn first_forbidden(s: Seq<char>) -> Option<char> {
    first_forbidden_from(s, 0)
}

/// A pattern word of the form `{name}`, a parameter.
pub open spec fn is_param(w: Seq<char>) -> bool {
    w.len() > 0 && w[0] == '{' && w.last() == '}'
}

/// The name of a parameter word: what stands between its braces.
pub open spec fn param_name(w: Seq<char>) -> Seq<char> {
    w.subrange(1, w.len() - 1)
}

/// The pattern words `pw` accept the arguments `pv`: as many of them, each
/// literal word equal to its argument.
pub open spec fn pattern_fits(pw: Seq<Seq<char>>, pv: Seq<Seq<char>>) -> bool {
    &&& pw.len() == pv.len()
    &&& forall|j: int| 0 <= j < pw.len() ==> is_param(#[trigger] pw[j]) || pw[j] == pv[j]
}

/// The (name, value) pairs bound by the first `n` parameter words, in order.
pub open spec fn collect_bindings(pw: Seq<Seq<char>>, pv: Seq<Seq<char>>, n: nat) -> Seq<
    (Seq<char>, Seq<char>),
>
    decreases n,
{
    if n == 0 {
        Seq::empty()
    } else {
        let b = collect_bindings(pw, pv, (n - 1) as nat);
        if is_param(pw[n - 1]) {
            b.push((param_name(pw[n - 1]), pv[n - 1]))
        } else {
            b
        }
    }
}

/// What matching the arguments `pv` against `pattern` gives: the parameter
/// bindings in order, or `None` where the pattern does not fit.
pub open spec fn spec_match_pattern(pattern: Seq<char>, pv: Seq<Seq<char>>) -> Option<
    Seq<(Seq<char>, Seq<char>)>,
> {
    let pw = words(pattern);
    if pattern_fits(pw, pv) {
        Some(collect_bindings(pw, pv, pw.len()))
    } else {
        None
    }
}

/// The value bound to `name`: the last binding of it wins, as in a map.
pub open spec fn lookup(b: Seq<(Seq<char>, Seq<char>)>, name: Seq<char>) -> Option<Seq<char>>
    decreases b.len(),
{
    if b.len() == 0 {
        None
    } else if b.last().0 == name {
        Some(b.last().1)
    } else {
        lookup(b.drop_last(), name)
    }
}

/// `p` holds two consecutive dots.
pub open spec fn has_dot_dot(p: Seq<char>) -> bool {
    exists|i: int| 0 <= i && i + 1 < p.len() && #[trigger] p[i] == '.' && p[i + 1] == '.'
}

/// `p` is an absolute path: on Unix, one that starts with `/`.
pub open spec fn is_absolute_path(p: Seq<char>) -> bool {
    p.len() > 0 && p[0] == '/'
}

/// The lexical containment test: `p` starts with `root`, and the character
/// after `root` in `p`, if any, is `/`.
pub open spec fn lies_under(p: Seq<char>, root: Seq<char>) -> bool {
    is_prefix(root, p) && !(p.len() > root.len() && p[root.len() as int] != '/')
}

/// Why an argument was refused.
pub enum Rejection {
    ForbiddenChar(char),
    PathTraversal(Seq<char>),
    NotAbsolute(Seq<char>),
    /// The file root, then the path.
    OutsideRoot(Seq<char>, Seq<char>),
    /// The trimmed arguments, the command's name, its patterns.
    NoMatch(Seq<char>, Seq<char>, Seq<Seq<char>>),
}

/// Why a file argument `p` is refused under `root`, checked in this order:
/// `..`, then absoluteness, then containment.
pub open spec fn file_arg_rejection(p: Seq<char>, root: Seq<char>) -> Option<Rejection> {
    if has_dot_dot(p) {
        Some(Rejection::PathTraversal(p))
    } else if !is_absolute_path(p) {
        Some(Rejection::NotAbsolute(p))
    } else if !lies_under(p, root) {
        Some(Rejection::OutsideRoot(root, p))
    } else {
        None
    }
}

/// The first refusal among the file parameters `params`, in order, of the
/// values that `b` binds to them; parameters left unbound are skipped.
pub open spec fn file_params_rejection(
    params: Seq<Seq<char>>,
    b: Seq<(Seq<char>, Seq<char>)>,
    root: Seq<char>,
) -> Option<Rejection>
    decreases params.len(),
{
    if params.len() == 0 {
        None
    } else {
        match lookup(b, params[0]) {
            Some(v) => match file_arg_rejection(v, root) {
                Some(e) => Some(e),
                None => file_params_rejection(params.drop_first(), b, root),
            },
            None => file_params_rejection(params.drop_first(), b, root),
        }
    }
}

/// The index of the first pattern, from `i` on, that the arguments fit.
pub open spec fn first_match_from(ps: Seq<PatternSpec>, pv: Seq<Seq<char>>, i: int) -> Option<int>
    decreases ps.len() - i,
{
    if i < 0 || i >= ps.len() {
        None
    } else if spec_match_pattern(ps[i].pattern, pv) is Some {
        Some(i)
    } else {
        first_match_from(ps, pv, i + 1)
    }
}

/// The outcome of validating the argument string `args` of command `cmd`
/// under the file root `root`.
pub open spec fn spec_validate_command(cmd: CommandSpec, args: Seq<char>, root: Seq<char>) -> Result<
    Seq<Seq<char>>,
    Rejection,
> {
    let t = trim(args);
    match first_forbidden(t) {
        Some(c) => Err(Rejection::ForbiddenChar(c)),
        None => {
            let pv = words(t);
            match first_match_from(cmd.allowed_args, pv, 0) {
                None => Err(
                    Rejection::NoMatch(
                        t,
                        cmd.name,
                        cmd.allowed_args.map_values(|p: PatternSpec| p.pattern),
                    ),
                ),
                Some(k) => {
                    let b = spec_match_pattern(cmd.allowed_args[k].pattern, pv).unwrap();
                    match file_params_rejection(cmd.allowed_args[k].file_args, b, root) {
                        Some(e) => Err(e),
                        None => Ok(pv),
                    }
                },
            }
        },
    }
}

/// A refused command invocation or file path.
#[derive(Debug)]
pub enum SanitizeError {
    ForbiddenChar(char),
    PathTraversal(String),
    NotAbsolute(String),
    OutsideRoot { file_root: String, path: String },
    NoMatch { args: String, command: String, allowed: Vec<String> },
}

impl View for SanitizeError {
    type V = Rejection;

    open spec fn view(&self) -> Rejection {
        match self {
            SanitizeError::ForbiddenChar(c) => Rejection::ForbiddenChar(*c),
            SanitizeError::PathTraversal(p) => Rejection::PathTraversal(p@),
            SanitizeError::NotAbsolute(p) => Rejection::NotAbsolute(p@),
            SanitizeError::OutsideRoot { file_root, path } => Rejection::OutsideRoot(
                file_root@,
                path@,
            ),
            SanitizeError::NoMatch { args, command, allowed } => Rejection::NoMatch(
                args@,
                command@,
                allowed@.map_values(|s: String| s@),
            ),
        }
    }
}

/// The views of a sequence of character vectors.
pub open spec fn views(v: Seq<Vec<char>>) -> Seq<Seq<char>> {
    v.map_values(|w: Vec<char>| w@)
}

/// The views of a sequence of binding pairs.
pub open spec fn pair_views(v: Seq<(Vec<char>, Vec<char>)>) -> Seq<(Seq<char>, Seq<char>)> {
    v.map_values(|p: (Vec<char>, Vec<char>)| (p.0@, p.1@))
}

/// The `Debug` rendering of a list of strings, as `format!("{:?}", ..)`
/// writes it: `["ld", "wl {offset} {file}"]`.
pub uninterp spec fn debug_str_list(items: Seq<Seq<char>>) -> Seq<char>;

/// Renders `items` with std's `Debug` formatting of `Vec<String>`.
#[verifier::external_body]
fn debug_list(items: &Vec<String>) -> (r: String)
    ensures
        r@ == debug_str_list(items@.map_values(|s: String| s@)),
{
    format!("{:?}", items)
}

/// The text of the refusal of arguments `args` of command `command`, whose
/// patterns render as `allowed_debug`.
pub open spec fn no_match_text(args: Seq<char>, command: Seq<char>, allowed_debug: Seq<char>) -> Seq<
    char,
> {
    "Arguments '"@ + args + "' do not match any allowed pattern for '"@ + command
        + "'. Allowed: "@ + allowed_debug
}

/// The human-readable text of a refusal.
pub open spec fn rejection_text(r: Rejection) -> Seq<char> {
    match r {
        Rejection::ForbiddenChar(c) => "Forbidden character '"@ + seq![c] + "' in arguments"@,
        Rejection::PathTraversal(p) => "Path traversal ('..') not allowed in file argument: "@ + p,
        Rejection::NotAbsolute(p) => "File argument must be an absolute path: "@ + p,
        Rejection::OutsideRoot(root, p) => "File argument must be under file_root '"@ + root
            + "', got: "@ + p,
        Rejection::NoMatch(args, command, allowed) => no_match_text(
            args,
            command,
            debug_str_list(allowed),
        ),
    }
}

/// Writes the text of the refusal of arguments `args` of command `command`,
/// given the rendering `allowed_debug` of its patterns.
pub fn no_match_message(args: &str, command: &str, allowed_debug: &str) -> (m: String)
    ensures
        m@ == no_match_text(args@, command@, allowed_debug@),
{
    let mut m = String::from_str("Arguments '");
    m.append(args);
    m.append("' do not match any allowed pattern for '");
    m.append(command);
    m.append("'. Allowed: ");
    m.append(allowed_debug);
    m
}

impl SanitizeError {
    /// The human-readable text of this refusal.
    pub fn message(&self) -> (m: String)
        ensures
            m@ == rejection_text(self@),
    {
        match self {
            SanitizeError::ForbiddenChar(c) => {
                let mut m = String::from_str("Forbidden character '");
                push_char(&mut m, *c);
                m.append("' in arguments");
                m
            },
            SanitizeError::PathTraversal(p) => {
                let mut m = String::from_str("Path traversal ('..') not allowed in file argument: ");
                m.append(p.as_str());
                m
            },
            SanitizeError::NotAbsolute(p) => {
                let mut m = String::from_str("File argument must be an absolute path: ");
                m.append(p.as_str());
                m
            },
            SanitizeError::OutsideRoot { file_root, path } => {
                let mut m = String::from_str("File argument must be under file_root '");
                m.append(file_root.as_str());
                m.append("', got: ");
                m.append(path.as_str());
                m
            },
            SanitizeError::NoMatch { args, command, allowed } => {
                let rendered = debug_list(allowed);
                no_match_message(args.as_str(), command.as_str(), rendered.as_str())
            },
        }
    }
}

/// Matches the arguments `provided` against `pattern`, binding its parameters.
fn match_pattern(pattern: &ArgPattern, provided: &Vec<Vec<char>>) -> (r: Option<
    Vec<(Vec<char>, Vec<char>)>,
>)
    ensures
        match r {
            Some(b) => spec_match_pattern(pattern.pattern@, views(provided@)) == Some(
                pair_views(b@),
            ),
            None => spec_match_pattern(pattern.pattern@, views(provided@)) is None,
        },
{
    let pattern_parts = split_words(&chars_of(pattern.pattern.as_str()));
    let ghost pw = views(pattern_parts@);
    let ghost pv = views(provided@);
    assert(pw =~= words(pattern.pattern@));
    if pattern_parts.len() != provided.len() {
        return None;
    }
    let mut bindings: Vec<(Vec<char>, Vec<char>)> = Vec::new();
    let mut j: usize = 0;
    while j < pattern_parts.len()
        invariant
            pw == views(pattern_parts@),
            pw == words(pattern.pattern@),
            pv == views(provided@),
            pattern_parts.len() == provided.len(),
            j <= pattern_parts.len(),
            forall|k: int| 0 <= k < j ==> is_param(#[trigger] pw[k]) || pw[k] == pv[k],
            pair_views(bindings@) == collect_bindings(pw, pv, j as nat),
        decreases pattern_parts.len() - j,
    {
        let pat = &pattern_parts[j];
        let val = &provided[j];
        let n = pat.len();
        assert(pw[j as int] == pat@ && pv[j as int] == val@);
        if n > 0 && pat[0] == '{' && pat[n - 1] == '}' {
            let mut name: Vec<char> = Vec::new();
            let mut k: usize = 1;
            while k < n - 1
                invariant
                    n == pat.len(),
                    n >= 1,
                    1 <= k <= n - 1 || (n == 1 && k == 1),
                    name@ =~= pat@.subrange(1, k as int),
                decreases n - k,
            {
                name.push(pat[k]);
                k = k + 1;
            }
            let ghost before = bindings@;
            bindings.push((name, val.clone()));
            assert(pair_views(bindings@) =~= pair_views(before).push((pat@.subrange(1, n - 1), val@)));
        } else {
            if !same_chars(pat, val) {
                assert(!(is_param(pw[j as int]) || pw[j as int] == pv[j as int]));
                assert(!pattern_fits(pw, pv));
                return None;
            }
        }
        j = j + 1;
    }
    Some(bindings)
}

/// The position of the last binding of `name`, if any.
fn last_binding(b: &Vec<(Vec<char>, Vec<char>)>, name: &Vec<char>) -> (r: Option<usize>)
    ensures
        match r {
            Some(i) => i < b@.len() && lookup(pair_views(b@), name@) == Some(b@[i as int].1@),
            None => lookup(pair_views(b@), name@) is None,
        },
{
    let mut i: usize = b.len();
    assert(b@.take(b.len() as int) =~= b@);
    while i > 0
        invariant
            i <= b.len(),
            lookup(pair_views(b@), name@) == lookup(pair_views(b@.take(i as int)), name@),
        decreases i,
    {
        assert(pair_views(b@.take(i as int)).drop_last() =~= pair_views(b@.take(i - 1)));
        if same_chars(&b[i - 1].0, name) {
            return Some(i - 1);
        }
        i = i - 1;
    }
    assert(pair_views(b@.take(0)) =~= Seq::<(Seq<char>, Seq<char>)>::empty());
    None
}

/// Checks a file argument: no `..`, absolute, and under `file_root`.
fn validate_file_arg(path_str: &str, file_root: &str) -> (r: Result<(), SanitizeError>)
    ensures
        match r {
            Ok(()) => file_arg_rejection(path_str@, file_root@) is None,
            Err(e) => file_arg_rejection(path_str@, file_root@) == Some(e@),
        },
{
    let p = chars_of(path_str);
    let root = chars_of(file_root);
    let mut i: usize = 0;
    while p.len() > 1 && i < p.len() - 1
        invariant
            p@ == path_str@,
            forall|k: int| 0 <= k < i ==> !(#[trigger] p@[k] == '.' && p@[k + 1] == '.'),
        decreases p.len() - i,
    {
        if p[i] == '.' && p[i + 1] == '.' {
            assert(p@[i as int] == '.' && p@[i + 1] == '.');
            return Err(SanitizeError::PathTraversal(string_of(&p)));
        }
        i = i + 1;
    }
    assert(!has_dot_dot(p@));
    if !(p.len() > 0 && p[0] == '/') {
        return Err(SanitizeError::NotAbsolute(string_of(&p)));
    }
    if !starts_with(&p, &root) || (p.len() > root.len() && p[root.len()] != '/') {
        return Err(SanitizeError::OutsideRoot { file_root: string_of(&root), path: string_of(&p) });
    }
    Ok(())
}

/// Checks that `path_str` is a safe path under `file_root`: it holds no `..`,
/// it is absolute, and it starts with `file_root` followed by `/` or nothing.
pub fn validate_path_under_root(path_str: &str, file_root: &str) -> (r: Result<(), SanitizeError>)
    ensures
        match r {
            Ok(()) => file_arg_rejection(path_str@, file_root@) is None,
            Err(e) => file_arg_rejection(path_str@, file_root@) == Some(e@),
        },
{
    validate_file_arg(path_str, file_root)
}

/// Validates the argument string `args_str` of a command against its
/// allowlist entry, and returns the argument list to run it with.
///
/// The string is trimmed and refused if it holds a character of
/// [`forbidden_chars`]; it is then split at whitespace, and the first of the
/// command's patterns that the words fit decides: each of its file parameters
/// that is bound must be a path under `file_root`
/// (see [`validate_path_under_root`]). Where no pattern fits, the error lists them.
pub fn validate_command(cmd_config: &CommandConfig, args_str: &str, file_root: &str) -> (r: Result<
    Vec<String>,
    SanitizeError,
>)
    ensures
        match r {
            Ok(v) => spec_validate_command(cmd_config@, args_str@, file_root@) == Ok::<
                Seq<Seq<char>>,
                Rejection,
            >(v@.map_values(|s: String| s@)),
            Err(e) => spec_validate_command(cmd_config@, args_str@, file_root@) == Err::<
                Seq<Seq<char>>,
                Rejection,
            >(e@),
        },
{
    let trimmed = trim_chars(&chars_of(args_str));
    let ghost t = trimmed@;
    let forbidden = forbidden_chars();
    let mut k: usize = 0;
    while k < forbidden.len()
        invariant
            forbidden@ == forbidden_chars_spec(),
            trimmed@ == t,
            t == trim(args_str@),
            k <= forbidden.len(),
            first_forbidden(t) == first_forbidden_from(t, k as int),
        decreases forbidden.len() - k,
    {
        if contains_char(&trimmed, forbidden[k]) {
            return Err(SanitizeError::ForbiddenChar(forbidden[k]));
        }
        k = k + 1;
    }
    let provided = split_words(&trimmed);
    let ghost pv = views(provided@);
    assert(pv =~= words(t));
    let ghost ps = cmd_config@.allowed_args;
    let mut i: usize = 0;
    while i < cmd_config.allowed_args.len()
        invariant
            i <= cmd_config.allowed_args.len(),
            ps == cmd_config@.allowed_args,
            pv == views(provided@),
            pv == words(t),
            t == trim(args_str@),
            first_forbidden(t) is None,
            first_match_from(ps, pv, 0) == first_match_from(ps, pv, i as int),
        decreases cmd_config.allowed_args.len() - i,
    {
        let pattern = &cmd_config.allowed_args[i];
        assert(ps[i as int] == pattern@);
        match match_pattern(pattern, &provided) {
            Some(bindings) => {
                let ghost b = pair_views(bindings@);
                let ghost params = pattern@.file_args;
                let mut j: usize = 0;
                assert(params.skip(0) =~= params);
                while j < pattern.file_args.len()
                    invariant
                        j <= pattern.file_args.len(),
                        params == pattern@.file_args,
                        b == pair_views(bindings@),
                        ps == cmd_config@.allowed_args,
                        i < ps.len(),
                        ps[i as int] == pattern@,
                        pv == views(provided@),
                        pv == words(t),
                        t == trim(args_str@),
                        first_forbidden(t) is None,
                        first_match_from(ps, pv, 0) == Some(i as int),
                        spec_match_pattern(pattern@.pattern, pv) == Some(b),
                        file_params_rejection(params, b, file_root@) == file_params_rejection(
                            params.skip(j as int),
                            b,
                            file_root@,
                        ),
                    decreases pattern.file_args.len() - j,
                {
                    assert(params.skip(j as int)[0] == pattern.file_args@[j as int]@);
                    assert(params.skip(j as int).drop_first() =~= params.skip(j + 1));
                    let name = chars_of(pattern.file_args[j].as_str());
                    match last_binding(&bindings, &name) {
                        Some(x) => {
                            let value = string_of(&bindings[x].1);
                            match validate_file_arg(value.as_str(), file_root) {
                                Ok(()) => {},
                                Err(e) => {
                                    return Err(e);
                                },
                            }
                        },
                        None => {},
                    }
                    j = j + 1;
                }
                assert(params.skip(params.len() as int) =~= Seq::<Seq<char>>::empty());
                let mut out: Vec<String> = Vec::new();
                let mut m: usize = 0;
                while m < provided.len()
                    invariant
                        m <= provided.len(),
                        out@.len() == m,
                        forall|q: int| 0 <= q < m ==> (#[trigger] out@[q])@ == provided@[q]@,
                    decreases provided.len() - m,
                {
                    out.push(string_of(&provided[m]));
                    m = m + 1;
                }
                assert(out@.map_values(|s: String| s@) =~= pv);
                return Ok(out);
            },
            None => {},
        }
        i = i + 1;
    }
    let mut allowed: Vec<String> = Vec::new();
    let mut m: usize = 0;
    while m < cmd_config.allowed_args.len()
        invariant
            m <= cmd_config.allowed_args.len(),
            ps == cmd_config@.allowed_args,
            allowed@.len() == m,
            forall|q: int| 0 <= q < m ==> (#[trigger] allowed@[q])@ == ps[q].pattern,
        decreases cmd_config.allowed_args.len() - m,
    {
        allowed.push(cmd_config.allowed_args[m].pattern.clone());
        m = m + 1;
    }
    assert(allowed@.map_values(|s: String| s@) =~= ps.map_values(|p: PatternSpec| p.pattern));
    Err(
        SanitizeError::NoMatch {
            args: string_of(&trimmed),
            command: cmd_config.name.clone(),
            allowed,
        },
    )
}

/// `p` is a safe file argument under `root`: no `..`, absolute, and either
/// `root` itself or below `root` followed by `/`.
pub open spec fn path_is_safe(p: Seq<char>, root: Seq<char>) -> bool {
    &&& !has_dot_dot(p)
    &&& is_absolute_path(p)
    &&& (p == root || is_prefix(root.push('/'), p))
}

proof fn lemma_first_match_from(ps: Seq<PatternSpec>, pv: Seq<Seq<char>>, i: int)
    ensures
        first_match_from(ps, pv, i) matches Some(k) ==> {
            &&& 0 <= i <= k < ps.len()
            &&& spec_match_pattern(ps[k].pattern, pv) is Some
        },
    decreases ps.len() - i,
{
    if 0 <= i < ps.len() && spec_match_pattern(ps[i].pattern, pv) is None {
        lemma_first_match_from(ps, pv, i + 1);
    }
}

proof fn lemma_first_forbidden_from(s: Seq<char>, k: int)
    requires
        0 <= k,
        first_forbidden_from(s, k) is None,
    ensures
        forall|m: int|
            k <= m < forbidden_chars_spec().len() ==> !s.contains(
                #[trigger] forbidden_chars_spec()[m],
            ),
    decreases forbidden_chars_spec().len() - k,
{
    if k < forbidden_chars_spec().len() {
        lemma_first_forbidden_from(s, k + 1);
    }
}

proof fn lemma_file_params_rejection(
    params: Seq<Seq<char>>,
    b: Seq<(Seq<char>, Seq<char>)>,
    root: Seq<char>,
)
    requires
        file_params_rejection(params, b, root) is None,
    ensures
        forall|i: int|
            0 <= i < params.len() ==> (lookup(b, #[trigger] params[i]) matches Some(x)
                ==> file_arg_rejection(x, root) is None),
    decreases params.len(),
{
    if params.len() > 0 {
        lemma_file_params_rejection(params.drop_first(), b, root);
        assert forall|i: int|
            0 <= i < params.len() implies (lookup(b, #[trigger] params[i]) matches Some(x)
                ==> file_arg_rejection(x, root) is None) by {
            if i > 0 {
                assert(params[i] == params.drop_first()[i - 1]);
            }
        }
    }
}

/// Law: the containment test accepts exactly the safe paths: a path passes
/// [`validate_path_under_root`] if and only if it holds no `..`, is absolute,
/// and is either the root itself or starts with the root followed by `/`
/// (so `/tmp/shared_evil` is not under `/tmp/shared`).
pub proof fn law_path_check_exact(p: Seq<char>, root: Seq<char>)
    ensures
        file_arg_rejection(p, root) is None <==> path_is_safe(p, root),
{
    let rl = root.len() as int;
    if lies_under(p, root) {
        if p.len() == rl {
            assert(p =~= p.take(rl));
        } else {
            assert(p.take(rl + 1) =~= root.push('/')) by {
                assert forall|i: int| 0 <= i < rl + 1 implies p.take(rl + 1)[i] == root.push('/')[i] by {
                    if i < rl {
                        assert(p.take(rl)[i] == root[i]);
                    }
                }
            }
        }
    }
    if p == root {
        assert(p.take(rl) =~= root);
        assert(lies_under(p, root));
    }
    if is_prefix(root.push('/'), p) {
        let q = root.push('/');
        assert(p.take(rl + 1) == q);
        assert(p.take(rl) =~= root) by {
            assert forall|i: int| 0 <= i < rl implies p.take(rl)[i] == root[i] by {
                assert(p.take(rl + 1)[i] == q[i]);
            }
        }
        assert(p[rl] == p.take(rl + 1)[rl]);
        assert(lies_under(p, root));
    }
}

/// Law: surrounding whitespace in the argument string is ignored: the
/// outcome for `args` is the outcome for `args` trimmed.
pub proof fn law_surrounding_whitespace_ignored(cmd: CommandSpec, args: Seq<char>, root: Seq<char>)
    ensures
        spec_validate_command(cmd, args, root) == spec_validate_command(cmd, trim(args), root),
{
    lemma_trim_idempotent(args);
}

/// Law: an accepted argument list is the list of words of the trimmed
/// argument string, and it fits one of the command's allowed patterns.
pub proof fn law_accepted_args_fit_a_pattern(
    cmd: CommandSpec,
    args: Seq<char>,
    root: Seq<char>,
    v: Seq<Seq<char>>,
)
    requires
        spec_validate_command(cmd, args, root) == Ok::<Seq<Seq<char>>, Rejection>(v),
    ensures
        v == words(trim(args)),
        exists|k: int|
            0 <= k < cmd.allowed_args.len() && pattern_fits(
                words(#[trigger] cmd.allowed_args[k].pattern),
                v,
            ),
{
    let pv = words(trim(args));
    lemma_first_match_from(cmd.allowed_args, pv, 0);
    let k = first_match_from(cmd.allowed_args, pv, 0).unwrap();
    assert(pattern_fits(words(cmd.allowed_args[k].pattern), v));
}

/// Law: no accepted argument is empty, and none holds whitespace or a
/// character of [`forbidden_chars`].
pub proof fn law_accepted_args_are_clean(
    cmd: CommandSpec,
    args: Seq<char>,
    root: Seq<char>,
    v: Seq<Seq<char>>,
)
    requires
        spec_validate_command(cmd, args, root) == Ok::<Seq<Seq<char>>, Rejection>(v),
    ensures
        forall|i: int| 0 <= i < v.len() ==> (#[trigger] v[i]).len() > 0,
        forall|i: int, j: int|
            0 <= i < v.len() && 0 <= j < v[i].len() ==> {
                let c = #[trigger] v[i][j];
                !is_white_space(c) && !forbidden_chars_spec().contains(c)
            },
{
    let t = trim(args);
    lemma_words_chars(t);
    lemma_first_forbidden_from(t, 0);
    assert forall|i: int, j: int| 0 <= i < v.len() && 0 <= j < v[i].len() implies {
        let c = #[trigger] v[i][j];
        !is_white_space(c) && !forbidden_chars_spec().contains(c)
    } by {
        let c = v[i][j];
        assert(words(t)[i][j] == c);
        if forbidden_chars_spec().contains(c) {
            let m = choose|m: int| 0 <= m < forbidden_chars_spec().len() && forbidden_chars_spec()[m] == c;
            assert(!t.contains(forbidden_chars_spec()[m]));
        }
    }
}

/// `pat` fits the arguments `v`, and each of its file parameters that the
/// arguments bind is a safe path under `root`.
pub open spec fn file_args_safe(pat: PatternSpec, v: Seq<Seq<char>>, root: Seq<char>) -> bool {
    match spec_match_pattern(pat.pattern, v) {
        Some(b) => forall|i: int|
            0 <= i < pat.file_args.len() ==> (lookup(b, #[trigger] pat.file_args[i]) matches Some(
                x,
            ) ==> path_is_safe(x, root)),
        None => false,
    }
}

/// Law: every file parameter of the deciding pattern that is bound in an
/// accepted invocation is a safe path under the file root.
pub proof fn law_accepted_file_args_under_root(
    cmd: CommandSpec,
    args: Seq<char>,
    root: Seq<char>,
    v: Seq<Seq<char>>,
)
    requires
        spec_validate_command(cmd, args, root) == Ok::<Seq<Seq<char>>, Rejection>(v),
    ensures
        exists|k: int|
            0 <= k < cmd.allowed_args.len() && file_args_safe(
                #[trigger] cmd.allowed_args[k],
                v,
                root,
            ),
{
    let pv = words(trim(args));
    lemma_first_match_from(cmd.allowed_args, pv, 0);
    let k = first_match_from(cmd.allowed_args, pv, 0).unwrap();
    let b = spec_match_pattern(cmd.allowed_args[k].pattern, pv).unwrap();
    let params = cmd.allowed_args[k].file_args;
    lemma_file_params_rejection(params, b, root);
    assert forall|i: int| 0 <= i < params.len() implies (lookup(b, #[trigger] params[i]) matches Some(
        x,
    ) ==> path_is_safe(x, root)) by {
        if let Some(x) = lookup(b, params[i]) {
            law_path_check_exact(x, root);
        }
    }
    assert(file_args_safe(cmd.allowed_args[k], v, root));
}

/// Law: a lookup finds the value of a bound name wherever its binding
/// stands: the value of the last binding of that name, and nothing only when
/// no binding has that name.
pub proof fn law_lookup_finds_last_binding(b: Seq<(Seq<char>, Seq<char>)>, n: Seq<char>)
    ensures
        match lookup(b, n) {
            Some(v) => exists|i: int|
                0 <= i < b.len() && #[trigger] b[i] == (n, v) && forall|j: int|
                    i < j < b.len() ==> (#[trigger] b[j]).0 != n,
            None => forall|i: int| 0 <= i < b.len() ==> (#[trigger] b[i]).0 != n,
        },
    decreases b.len(),
{
    if b.len() > 0 {
        let p = b.drop_last();
        law_lookup_finds_last_binding(p, n);
        if b.last().0 == n {
            let i = b.len() - 1;
            assert(b[i] == (n, b.last().1));
        } else {
            match lookup(p, n) {
                Some(v) => {
                    let i = choose|i: int|
                        0 <= i < p.len() && #[trigger] p[i] == (n, v) && forall|j: int|
                            i < j < p.len() ==> (#[trigger] p[j]).0 != n;
                    assert(b[i] == p[i]);
                    assert forall|j: int| i < j < b.len() implies (#[trigger] b[j]).0 != n by {
                        if j < p.len() {
                            assert(b[j] == p[j]);
                        }
                    }
                },
                None => {
                    assert forall|i: int| 0 <= i < b.len() implies (#[trigger] b[i]).0 != n by {
                        if i < p.len() {
                            assert(b[i] == p[i]);
                        }
                    }
                },
            }
        }
    }
}

/// Position `j` of the pattern words `pw` is the last parameter named `name`.
pub open spec fn last_param_named(pw: Seq<Seq<char>>, j: int, name: Seq<char>) -> bool {
    &&& 0 <= j < pw.len()
    &&& is_param(pw[j])
    &&& param_name(pw[j]) == name
    &&& forall|j2: int|
        j < j2 < pw.len() ==> !(is_param(#[trigger] pw[j2]) && param_name(pw[j2]) == name)
}

proof fn lemma_collect_bindings_last(pw: Seq<Seq<char>>, pv: Seq<Seq<char>>, n: nat, j: int, name: Seq<char>)
    requires
        n <= pw.len(),
        n <= pv.len(),
        0 <= j < n,
        is_param(pw[j]),
        param_name(pw[j]) == name,
        forall|j2: int| j < j2 < n ==> !(is_param(#[trigger] pw[j2]) && param_name(pw[j2]) == name),
    ensures
        lookup(collect_bindings(pw, pv, n), name) == Some(pv[j]),
    decreases n,
{
    let m = (n - 1) as nat;
    let b = collect_bindings(pw, pv, m);
    if j < m {
        lemma_collect_bindings_last(pw, pv, m, j, name);
        if is_param(pw[m as int]) {
            assert(param_name(pw[m as int]) != name);
            let c = b.push((param_name(pw[m as int]), pv[m as int]));
            assert(c.drop_last() =~= b);
        }
    } else {
        let c = b.push((param_name(pw[m as int]), pv[m as int]));
        assert(c.last() == (name, pv[j]));
    }
}

/// Every file parameter of `pat` that stands in its words is, at its last
/// position, given a safe path under `root` by the arguments `v`.
pub open spec fn every_file_param_safe(pat: PatternSpec, v: Seq<Seq<char>>, root: Seq<char>) -> bool {
    forall|i: int, j: int|
        0 <= i < pat.file_args.len() && 0 <= j < v.len() && last_param_named(
            words(pat.pattern),
            j,
            #[trigger] pat.file_args[i],
        ) ==> path_is_safe(#[trigger] v[j], root)
}

/// Law: in an accepted invocation, the deciding pattern fits the arguments,
/// and every file parameter that it names and that occurs in it is given a
/// safe path under the file root, whichever position it has among the
/// parameters.
pub proof fn law_every_file_param_checked(
    cmd: CommandSpec,
    args: Seq<char>,
    root: Seq<char>,
    v: Seq<Seq<char>>,
)
    requires
        spec_validate_command(cmd, args, root) == Ok::<Seq<Seq<char>>, Rejection>(v),
    ensures
        exists|k: int|
            0 <= k < cmd.allowed_args.len() && pattern_fits(
                words(#[trigger] cmd.allowed_args[k].pattern),
                v,
            ) && every_file_param_safe(cmd.allowed_args[k], v, root),
{
    let pv = words(trim(args));
    lemma_first_match_from(cmd.allowed_args, pv, 0);
    let k = first_match_from(cmd.allowed_args, pv, 0).unwrap();
    let pat = cmd.allowed_args[k];
    let pw = words(pat.pattern);
    let b = collect_bindings(pw, pv, pw.len());
    lemma_file_params_rejection(pat.file_args, b, root);
    assert forall|i: int, j: int|
        0 <= i < pat.file_args.len() && 0 <= j < v.len() && last_param_named(
            pw,
            j,
            #[trigger] pat.file_args[i],
        ) implies path_is_safe(#[trigger] v[j], root) by {
        let name = pat.file_args[i];
        lemma_collect_bindings_last(pw, pv, pw.len(), j, name);
        law_path_check_exact(v[j], root);
    }
    assert(every_file_param_safe(pat, v, root));
}

#[verifier::rlimit(40)]
proof fn lemma_first_forbidden_least(s: Seq<char>, k: int, m: int)
    requires
        0 <= k <= m < forbidden_chars_spec().len(),
        s.contains(forbidden_chars_spec()[m]),
    ensures
        exists|m0: int|
            k <= m0 <= m && s.contains(#[trigger] forbidden_chars_spec()[m0]) && (forall|m2: int|
                k <= m2 < m0 ==> !s.contains(#[trigger] forbidden_chars_spec()[m2]))
                && first_forbidden_from(s, k) == Some(forbidden_chars_spec()[m0]),
    decreases m - k,
{
    if !s.contains(forbidden_chars_spec()[k]) {
        lemma_first_forbidden_least(s, k + 1, m);
    }
}

proof fn lemma_first_match_none(ps: Seq<PatternSpec>, pv: Seq<Seq<char>>, i: int)
    requires
        0 <= i,
    ensures
        first_match_from(ps, pv, i) is None <==> forall|k: int|
            i <= k < ps.len() ==> !pattern_fits(words(#[trigger] ps[k].pattern), pv),
    decreases ps.len() - i,
{
    if i < ps.len() {
        lemma_first_match_none(ps, pv, i + 1);
    }
}

/// Law: an argument string holding a shell metacharacter is refused with the
/// first metacharacter of [`forbidden_chars`], in list order, that it holds;
/// one holding none is never refused for a metacharacter.
pub proof fn law_forbidden_char_refusal(cmd: CommandSpec, args: Seq<char>, root: Seq<char>)
    ensures
        (exists|m: int|
            0 <= m < forbidden_chars_spec().len() && trim(args).contains(
                #[trigger] forbidden_chars_spec()[m],
            )) ==> exists|m: int|
            0 <= m < forbidden_chars_spec().len() && trim(args).contains(
                #[trigger] forbidden_chars_spec()[m],
            ) && (forall|m2: int|
                0 <= m2 < m ==> !trim(args).contains(#[trigger] forbidden_chars_spec()[m2]))
                && spec_validate_command(cmd, args, root) == Err::<Seq<Seq<char>>, Rejection>(
                Rejection::ForbiddenChar(forbidden_chars_spec()[m]),
            ),
        (forall|m: int|
            0 <= m < forbidden_chars_spec().len() ==> !trim(args).contains(
                #[trigger] forbidden_chars_spec()[m],
            )) ==> !(spec_validate_command(cmd, args, root) matches Err(
            Rejection::ForbiddenChar(_),
        )),
{
    let t = trim(args);
    if exists|m: int| 0 <= m < forbidden_chars_spec().len() && t.contains(
        #[trigger] forbidden_chars_spec()[m],
    ) {
        let m = choose|m: int|
            0 <= m < forbidden_chars_spec().len() && t.contains(
                #[trigger] forbidden_chars_spec()[m],
            );
        lemma_first_forbidden_least(t, 0, m);
    } else {
        if first_forbidden(t) is Some {
            lemma_first_forbidden_some(t, 0);
        }
        let pv = words(t);
        let fm = first_match_from(cmd.allowed_args, pv, 0);
        if fm is Some {
            lemma_first_match_from(cmd.allowed_args, pv, 0);
            let k = fm.unwrap();
            let b = spec_match_pattern(cmd.allowed_args[k].pattern, pv).unwrap();
            lemma_file_params_rejection_kind(cmd.allowed_args[k].file_args, b, root);
        }
    }
}

proof fn lemma_first_forbidden_some(s: Seq<char>, k: int)
    requires
        0 <= k,
        first_forbidden_from(s, k) is Some,
    ensures
        exists|m: int|
            k <= m < forbidden_chars_spec().len() && s.contains(
                #[trigger] forbidden_chars_spec()[m],
            ),
    decreases forbidden_chars_spec().len() - k,
{
    if !s.contains(forbidden_chars_spec()[k]) {
        lemma_first_forbidden_some(s, k + 1);
    }
}

/// Law: arguments free of metacharacters are refused for not matching
/// exactly when their words fit none of the command's patterns.
pub proof fn law_no_match_exactly_when_no_pattern_fits(
    cmd: CommandSpec,
    args: Seq<char>,
    root: Seq<char>,
)
    requires
        forall|m: int|
            0 <= m < forbidden_chars_spec().len() ==> !trim(args).contains(
                #[trigger] forbidden_chars_spec()[m],
            ),
    ensures
        (spec_validate_command(cmd, args, root) matches Err(Rejection::NoMatch(_, _, _)))
            <==> forall|k: int|
            0 <= k < cmd.allowed_args.len() ==> !pattern_fits(
                words(#[trigger] cmd.allowed_args[k].pattern),
                words(trim(args)),
            ),
{
    let t = trim(args);
    if first_forbidden(t) is Some {
        lemma_first_forbidden_some(t, 0);
    }
    lemma_first_match_none(cmd.allowed_args, words(t), 0);
    let fm = first_match_from(cmd.allowed_args, words(t), 0);
    if fm is Some {
        lemma_first_match_from(cmd.allowed_args, words(t), 0);
        let k = fm.unwrap();
        let b = spec_match_pattern(cmd.allowed_args[k].pattern, words(t)).unwrap();
        match file_params_rejection(cmd.allowed_args[k].file_args, b, root) {
            Some(e) => {
                lemma_file_params_rejection_kind(cmd.allowed_args[k].file_args, b, root);
            },
            None => {},
        }
    }
}

proof fn lemma_file_params_rejection_kind(
    params: Seq<Seq<char>>,
    b: Seq<(Seq<char>, Seq<char>)>,
    root: Seq<char>,
)
    ensures
        file_params_rejection(params, b, root) matches Some(e) ==> !(e is NoMatch) && !(
        e is ForbiddenChar),
    decreases params.len(),
{
    if params.len() > 0 {
        lemma_file_params_rejection_kind(params.drop_first(), b, root);
    }
}

} // verus!
