//! The command that starts a launch profile's server, and its shell-quoted
//! preview.

use vstd::prelude::*;

use crate::catalog::{
    invalid, strings_view, ConfigView, Error, ErrorKind, Profile, ProfileView, Runtime,
    RuntimeConfig,
};
use crate::catalog_file::Catalog;
use crate::paths::{components, opt_str_view, path_components, resolve, resolved};
use crate::text::{chars_of, is_ascii_alphanumeric, char_is_ascii_alphanumeric, string_from};

verus! {

/// A server command: the program, its arguments, and the directory it runs
/// in, if one is set.
#[derive(Debug)]
pub struct LaunchCommand {
    pub program: String,
    pub args: Vec<String>,
    pub current_dir: Option<String>,
}

/// A server command as plain text.
pub struct CommandView {
    pub program: Seq<char>,
    pub args: Seq<Seq<char>>,
    pub current_dir: Option<Seq<char>>,
}

impl View for LaunchCommand {
    type V = CommandView;

    open spec fn view(&self) -> CommandView {
        CommandView {
            program: self.program@,
            args: strings_view(self.args@),
            current_dir: crate::catalog::opt_view(self.current_dir),
        }
    }
}

/// The message for a profile whose runtime is not configured.
pub open spec fn runtime_missing_message(id: Seq<char>) -> Seq<char> {
    "runtime not configured for profile '"@ + id + "'"@
}

/// The program that starts runtime settings `s`: the executable resolved
/// against the catalog directory when it has more than one path component
/// or the resolved file exists, else the bare name, which the system looks
/// up on `PATH`. `None` when resolving needs a home directory that is not
/// known.
pub open spec fn program_of(
    directory: Seq<char>,
    executable: Seq<char>,
    home: Option<Seq<char>>,
    resolved_exists: bool,
) -> Option<Seq<char>> {
    match resolved(directory, executable, home) {
        None => None,
        Some(r) => if path_components(executable).len() > 1 || resolved_exists {
            Some(r)
        } else {
            Some(executable)
        },
    }
}

/// The command that launches profile `p` of configuration `c` whose catalog
/// directory is `directory`; the error message when it cannot be built.
/// oMLX runs `serve`; the other runtimes run in their working directory
/// (the catalog directory by default) with `-m MODEL` and the profile's
/// arguments.
pub open spec fn command_of(
    c: ConfigView,
    directory: Seq<char>,
    p: ProfileView,
    home: Option<Seq<char>>,
    resolved_exists: bool,
) -> Result<CommandView, Seq<char>> {
    match c.runtime(p.runtime) {
        None => Err(runtime_missing_message(p.id)),
        Some(s) => match program_of(directory, s.executable, home, resolved_exists) {
            None => Err("HOME is not set"@),
            Some(program) => if p.runtime == Runtime::Omlx {
                Ok(CommandView { program, args: seq!["serve"@], current_dir: None })
            } else {
                let dir = match s.working_dir {
                    Some(w) => resolved(directory, w, home),
                    None => Some(directory),
                };
                match dir {
                    None => Err("HOME is not set"@),
                    Some(d) => match p.model {
                        None => Err("profile '"@ + p.id + "' requires a model path"@),
                        Some(m) => match resolved(directory, m, home) {
                            None => Err("HOME is not set"@),
                            Some(model) => Ok(
                                CommandView {
                                    program,
                                    args: seq!["-m"@, model] + p.args,
                                    current_dir: Some(d),
                                },
                            ),
                        },
                    },
                }
            },
        },
    }
}

/// The settings of the runtime that profile `p` uses.
fn settings_of<'a>(catalog: &'a Catalog, p: &Profile) -> (r: Result<&'a RuntimeConfig, Error>)
    ensures
        match catalog.config@.runtime(p.runtime) {
            None => r matches Err(e) && e.kind == ErrorKind::InvalidInput && e.message@
                == runtime_missing_message(p.id@),
            Some(s) => r matches Ok(t) && t@ == s,
        },
{
    match catalog.config.runtimes.get(p.runtime) {
        Some(s) => Ok(s),
        None => {
            let mut m = String::from_str("runtime not configured for profile '");
            m.append(p.id.as_str());
            m.append("'");
            Err(invalid(m))
        },
    }
}

/// The executable of profile `p`'s runtime, resolved against the catalog
/// directory; the caller checks whether it exists before building the
/// command.
pub fn resolved_executable(catalog: &Catalog, p: &Profile, home: Option<&str>) -> (r: Result<
    String,
    Error,
>)
    ensures
        match catalog.config@.runtime(p.runtime) {
            None => r matches Err(e) && e.kind == ErrorKind::InvalidInput && e.message@
                == runtime_missing_message(p.id@),
            Some(s) => match resolved(catalog.directory@, s.executable, opt_str_view(home)) {
                None => r matches Err(e) && e.kind == ErrorKind::InvalidInput && e.message@
                    == "HOME is not set"@,
                Some(x) => r matches Ok(t) && t@ == x,
            },
        },
{
    let s = settings_of(catalog, p)?;
    resolve(catalog.directory.as_str(), s.executable.as_str(), home)
}

/// A copy of the strings `v`.
fn copy_strings(v: &Vec<String>) -> (r: Vec<String>)
    ensures
        strings_view(r@) == strings_view(v@),
{
    let mut r: Vec<String> = Vec::new();
    let mut i: usize = 0;
    while i < v.len()
        invariant
            i <= v.len(),
            strings_view(r@) == strings_view(v@).subrange(0, i as int),
        decreases v.len() - i,
    {
        let ghost before = r@;
        r.push(v[i].clone());
        assert(strings_view(r@) =~= strings_view(before).push(v@[i as int]@));
        assert(strings_view(v@).subrange(0, i + 1) =~= strings_view(v@).subrange(0, i as int).push(
            strings_view(v@)[i as int],
        ));
        i = i + 1;
    }
    assert(strings_view(v@).subrange(0, v.len() as int) =~= strings_view(v@));
    r
}

/// Builds the command that launches profile `p`. `resolved_exists` tells
/// whether the file at `resolved_executable` exists.
pub fn command(catalog: &Catalog, p: &Profile, home: Option<&str>, resolved_exists: bool) -> (r:
    Result<LaunchCommand, Error>)
    ensures
        match command_of(
            catalog.config@,
            catalog.directory@,
            p@,
            opt_str_view(home),
            resolved_exists,
        ) {
            Ok(cv) => r matches Ok(cmd) && cmd@ == cv,
            Err(m) => r matches Err(e) && e.kind == ErrorKind::InvalidInput && e.message@ == m,
        },
{
    let s = settings_of(catalog, p)?;
    let resolved_exe = resolve(catalog.directory.as_str(), s.executable.as_str(), home)?;
    let program = if components(s.executable.as_str()).len() > 1 || resolved_exists {
        resolved_exe
    } else {
        s.executable.clone()
    };
    if p.runtime == Runtime::Omlx {
        let mut args: Vec<String> = Vec::new();
        args.push(String::from_str("serve"));
        assert(strings_view(args@) =~= seq!["serve"@]);
        return Ok(LaunchCommand { program, args, current_dir: None });
    }
    let dir = match &s.working_dir {
        Some(w) => resolve(catalog.directory.as_str(), w.as_str(), home)?,
        None => catalog.directory.clone(),
    };
    let model = match &p.model {
        Some(m) => resolve(catalog.directory.as_str(), m.as_str(), home)?,
        None => {
            let mut m = String::from_str("profile '");
            m.append(p.id.as_str());
            m.append("' requires a model path");
            return Err(invalid(m));
        },
    };
    let mut args: Vec<String> = Vec::new();
    args.push(String::from_str("-m"));
    args.push(model);
    let rest = copy_strings(&p.args);
    let mut i: usize = 0;
    let ghost head = strings_view(args@);
    assert(head =~= seq!["-m"@, model@]);
    while i < rest.len()
        invariant
            i <= rest.len(),
            strings_view(args@) == head + strings_view(rest@).subrange(0, i as int),
        decreases rest.len() - i,
    {
        let ghost before = args@;
        args.push(rest[i].clone());
        assert(strings_view(args@) =~= strings_view(before).push(rest@[i as int]@));
        assert(strings_view(rest@).subrange(0, i + 1) =~= strings_view(rest@).subrange(
            0,
            i as int,
        ).push(strings_view(rest@)[i as int]));
        i = i + 1;
    }
    assert(strings_view(rest@).subrange(0, rest.len() as int) =~= strings_view(rest@));
    Ok(LaunchCommand { program, args, current_dir: Some(dir) })
}

/// `c` may stand unquoted in a shell word.
pub open spec fn plain_char(c: char) -> bool {
    is_ascii_alphanumeric(c) || c == '_' || c == '.' || c == '/' || c == ':' || c == '-'
}

/// `w` with each `'` written as `'\''`.
pub open spec fn escape_quotes(w: Seq<char>) -> Seq<char>
    decreases w.len(),
{
    if w.len() == 0 {
        seq![]
    } else if w.last() == '\'' {
        escape_quotes(w.drop_last()) + seq!['\'', '\\', '\'', '\'']
    } else {
        escape_quotes(w.drop_last()).push(w.last())
    }
}

/// The shell word for `w`: itself when it is non-empty and made of plain
/// characters, else `w` in single quotes with its own quotes escaped.
pub open spec fn quoted(w: Seq<char>) -> Seq<char> {
    if w.len() > 0 && forall|i: int| 0 <= i < w.len() ==> plain_char(#[trigger] w[i]) {
        w
    } else {
        seq!['\''] + escape_quotes(w) + seq!['\'']
    }
}

/// Quotes `word` for a POSIX shell.
pub fn quote(word: &str) -> (r: String)
    ensures
        r@ == quoted(word@),
{
    let w = chars_of(word);
    let mut plain = w.len() > 0;
    let mut i: usize = 0;
    while i < w.len()
        invariant
            i <= w.len(),
            plain == (w@.len() > 0 && forall|j: int| 0 <= j < i ==> plain_char(#[trigger] w@[j])),
        decreases w.len() - i,
    {
        let c = w[i];
        let ok = char_is_ascii_alphanumeric(c) || c == '_' || c == '.' || c == '/' || c == ':'
            || c == '-';
        plain = plain && ok;
        i = i + 1;
    }
    if plain {
        return string_from(&w);
    }
    let mut out: Vec<char> = Vec::new();
    out.push('\'');
    let mut k: usize = 0;
    assert(w@.subrange(0, 0) =~= Seq::<char>::empty());
    while k < w.len()
        invariant
            k <= w.len(),
            out@ == seq!['\''] + escape_quotes(w@.subrange(0, k as int)),
        decreases w.len() - k,
    {
        let ghost prefix = w@.subrange(0, k + 1);
        assert(prefix.drop_last() =~= w@.subrange(0, k as int));
        if w[k] == '\'' {
            out.push('\'');
            out.push('\\');
            out.push('\'');
            out.push('\'');
        } else {
            out.push(w[k]);
        }
        k = k + 1;
        assert(out@ =~= seq!['\''] + escape_quotes(w@.subrange(0, k as int)));
    }
    out.push('\'');
    assert(w@.subrange(0, w.len() as int) =~= w@);
    string_from(&out)
}

/// The words `ws` joined by single spaces.
pub open spec fn join_spaces(ws: Seq<Seq<char>>) -> Seq<char>
    decreases ws.len(),
{
    if ws.len() == 0 {
        seq![]
    } else if ws.len() == 1 {
        ws[0]
    } else {
        join_spaces(ws.drop_last()) + seq![' '] + ws.last()
    }
}

/// The preview line of a command: its quoted program and arguments, after
/// `cd DIR &&` when it runs in a set directory.
pub open spec fn preview_of(cv: CommandView) -> Seq<char> {
    let words = join_spaces(seq![cv.program].add(cv.args).map_values(|w: Seq<char>| quoted(w)));
    match cv.current_dir {
        Some(d) => "cd "@ + quoted(d) + " && "@ + words,
        None => words,
    }
}

/// The quoted words of a command, joined by spaces.
fn command_words(cmd: &LaunchCommand) -> (r: Vec<char>)
    ensures
        r@ == join_spaces(seq![cmd@.program].add(cmd@.args).map_values(|w: Seq<char>| quoted(w))),
{
    let ghost ws = seq![cmd@.program].add(cmd@.args).map_values(|w: Seq<char>| quoted(w));
    let first = quote(cmd.program.as_str());
    let mut out = chars_of(first.as_str());
    assert(ws.subrange(0, 1) =~= seq![ws[0]]);
    let mut i: usize = 0;
    while i < cmd.args.len()
        invariant
            i <= cmd.args.len(),
            ws == seq![cmd@.program].add(cmd@.args).map_values(|w: Seq<char>| quoted(w)),
            ws.len() == cmd.args.len() + 1,
            out@ == join_spaces(ws.subrange(0, i + 1)),
        decreases cmd.args.len() - i,
    {
        let q = quote(cmd.args[i].as_str());
        let qc = chars_of(q.as_str());
        let ghost before = out@;
        out.push(' ');
        let mut j: usize = 0;
        while j < qc.len()
            invariant
                j <= qc.len(),
                out@ == before.push(' ') + qc@.subrange(0, j as int),
            decreases qc.len() - j,
        {
            out.push(qc[j]);
            j = j + 1;
            assert(out@ =~= before.push(' ') + qc@.subrange(0, j as int));
        }
        proof {
            let next = ws.subrange(0, i + 2);
            assert(next.drop_last() =~= ws.subrange(0, i + 1));
            assert(ws[i + 1] == quoted(cmd@.args[i as int]));
            assert(qc@.subrange(0, qc@.len() as int) =~= qc@);
            assert(out@ =~= join_spaces(next));
        }
        i = i + 1;
    }
    assert(ws.subrange(0, ws.len() as int) =~= ws);
    out
}

/// Appends the characters of `s` to `out`.
fn append_chars(out: &mut Vec<char>, s: &Vec<char>)
    ensures
        final(out)@ == old(out)@ + s@,
{
    let ghost start = out@;
    let mut j: usize = 0;
    while j < s.len()
        invariant
            j <= s.len(),
            out@ == start + s@.subrange(0, j as int),
        decreases s.len() - j,
    {
        out.push(s[j]);
        j = j + 1;
        assert(out@ =~= start + s@.subrange(0, j as int));
    }
    assert(s@.subrange(0, s.len() as int) =~= s@);
}

/// The shell-quoted preview of a command.
pub fn preview_command(cmd: &LaunchCommand) -> (r: String)
    ensures
        r@ == preview_of(cmd@),
{
    let words = command_words(cmd);
    match &cmd.current_dir {
        None => string_from(&words),
        Some(d) => {
            let mut out = chars_of("cd ");
            let q = quote(d.as_str());
            append_chars(&mut out, &chars_of(q.as_str()));
            append_chars(&mut out, &chars_of(" && "));
            append_chars(&mut out, &words);
            string_from(&out)
        },
    }
}

/// The shell-quoted preview of the command that launches profile `p`.
pub fn preview(catalog: &Catalog, p: &Profile, home: Option<&str>, resolved_exists: bool) -> (r:
    Result<String, Error>)
    ensures
        match command_of(
            catalog.config@,
            catalog.directory@,
            p@,
            opt_str_view(home),
            resolved_exists,
        ) {
            Ok(cv) => r matches Ok(s) && s@ == preview_of(cv),
            Err(m) => r matches Err(e) && e.kind == ErrorKind::InvalidInput && e.message@ == m,
        },
{
    let cmd = command(catalog, p, home, resolved_exists)?;
    Ok(preview_command(&cmd))
}

/// How a POSIX shell reads `s` as one command word made of the characters
/// that `quote` writes, inside single quotes when `quoted`: quoted text is
/// literal up to the next `'`; outside quotes, `'` opens quotes, `\` takes
/// the next character literally, and plain characters stand for
/// themselves. `None` when the text ends inside quotes or holds any other
/// unquoted character (a blank, which would split the word, or one that the
/// shell would expand).
pub open spec fn sh_read(s: Seq<char>, quoted: bool) -> Option<Seq<char>>
    decreases s.len(),
{
    if s.len() == 0 {
        if quoted {
            None
        } else {
            Some(seq![])
        }
    } else {
        let c = s[0];
        let rest = s.subrange(1, s.len() as int);
        if quoted {
            if c == '\'' {
                sh_read(rest, false)
            } else {
                match sh_read(rest, true) {
                    Some(w) => Some(seq![c] + w),
                    None => None,
                }
            }
        } else if c == '\'' {
            sh_read(rest, true)
        } else if c == '\\' {
            if rest.len() == 0 {
                None
            } else {
                match sh_read(rest.subrange(1, rest.len() as int), false) {
                    Some(w) => Some(seq![rest[0]] + w),
                    None => None,
                }
            }
        } else if plain_char(c) {
            match sh_read(rest, false) {
                Some(w) => Some(seq![c] + w),
                None => None,
            }
        } else {
            None
        }
    }
}

proof fn lemma_escape_concat(a: Seq<char>, b: Seq<char>)
    ensures
        escape_quotes(a + b) == escape_quotes(a) + escape_quotes(b),
    decreases b.len(),
{
    if b.len() == 0 {
        assert(a + b =~= a);
        assert(escape_quotes(a) + escape_quotes(b) =~= escape_quotes(a));
    } else {
        lemma_escape_concat(a, b.drop_last());
        assert((a + b).drop_last() =~= a + b.drop_last());
        assert((a + b).last() == b.last());
        if b.last() == '\'' {
            assert(escape_quotes(a) + escape_quotes(b) =~= escape_quotes(a) + escape_quotes(
                b.drop_last(),
            ) + seq!['\'', '\\', '\'', '\'']);
        } else {
            assert(escape_quotes(a) + escape_quotes(b) =~= (escape_quotes(a) + escape_quotes(
                b.drop_last(),
            )).push(b.last()));
        }
    }
}

proof fn lemma_read_escaped(w: Seq<char>)
    ensures
        sh_read(escape_quotes(w) + seq!['\''], true) == Some(w),
    decreases w.len(),
{
    if w.len() == 0 {
        assert(escape_quotes(w) + seq!['\''] =~= seq!['\'']);
        assert(seq!['\''].subrange(1, 1) =~= Seq::<char>::empty());
        assert(sh_read(Seq::<char>::empty(), false) == Some(Seq::<char>::empty()));
        assert(w =~= Seq::<char>::empty());
    } else {
        let c = w[0];
        let r = w.subrange(1, w.len() as int);
        assert(w =~= seq![c] + r);
        lemma_escape_concat(seq![c], r);
        lemma_read_escaped(r);
        let tail = escape_quotes(r) + seq!['\''];
        assert(seq![c].drop_last() =~= Seq::<char>::empty());
        assert(seq![c].last() == c);
        assert(escape_quotes(Seq::<char>::empty()) =~= Seq::<char>::empty());
        assert(escape_quotes(seq![c].drop_last()) =~= Seq::<char>::empty());
        if c == '\'' {
            assert(escape_quotes(seq![c]) =~= seq!['\'', '\\', '\'', '\'']);
            let s = escape_quotes(w) + seq!['\''];
            assert(s =~= seq!['\'', '\\', '\'', '\''] + tail);
            let s1 = s.subrange(1, s.len() as int);
            assert(s1 =~= seq!['\\', '\'', '\''] + tail);
            let s2 = s1.subrange(1, s1.len() as int);
            assert(s2.subrange(1, s2.len() as int) =~= seq!['\''] + tail);
            let s3 = seq!['\''] + tail;
            assert(s3.subrange(1, s3.len() as int) =~= tail);
            assert(sh_read(s3, false) == sh_read(tail, true));
            assert(s2[0] == '\'');
            assert(sh_read(s1, false) == Some(seq![s2[0]] + r));
            assert(sh_read(s, true) == sh_read(s1, false));
            assert(seq![s2[0]] + r =~= w);
        } else {
            assert(escape_quotes(seq![c]) =~= seq![c]);
            let s = escape_quotes(w) + seq!['\''];
            assert(s =~= seq![c] + tail);
            assert(s.subrange(1, s.len() as int) =~= tail);
            assert(s[0] == c);
            assert(sh_read(s, true) == Some(seq![c] + r));
        }
    }
}

proof fn lemma_read_plain(w: Seq<char>)
    requires
        forall|i: int| 0 <= i < w.len() ==> plain_char(#[trigger] w[i]),
    ensures
        sh_read(w, false) == Some(w),
    decreases w.len(),
{
    if w.len() > 0 {
        let r = w.subrange(1, w.len() as int);
        assert forall|i: int| 0 <= i < r.len() implies plain_char(#[trigger] r[i]) by {
            assert(r[i] == w[i + 1]);
        }
        lemma_read_plain(r);
        assert(plain_char(w[0]));
        assert(seq![w[0]] + r =~= w);
    }
}

/// A POSIX shell reads the quoted form of any word back as that same single
/// word, with nothing expanded: `sh_read(quoted(w), false) == Some(w)`.
pub proof fn lemma_quote_round_trip(w: Seq<char>)
    ensures
        sh_read(quoted(w), false) == Some(w),
{
    if w.len() > 0 && forall|i: int| 0 <= i < w.len() ==> plain_char(#[trigger] w[i]) {
        lemma_read_plain(w);
    } else {
        let q = quoted(w);
        assert(q =~= seq!['\''] + (escape_quotes(w) + seq!['\'']));
        assert(q.subrange(1, q.len() as int) =~= escape_quotes(w) + seq!['\'']);
        lemma_read_escaped(w);
    }
}

/// The command of a profile: oMLX runs `serve` with no directory; any other
/// runtime gets `-m` and the resolved model path followed by exactly the
/// profile's own arguments, whatever that runtime is. Such a command is
/// built whenever the runtime is configured, its executable, working
/// directory and the profile's model resolve, and the profile names a model.
pub proof fn lemma_command_arguments(
    c: ConfigView,
    directory: Seq<char>,
    p: ProfileView,
    home: Option<Seq<char>>,
    resolved_exists: bool,
)
    ensures
        command_of(c, directory, p, home, resolved_exists) is Ok && p.runtime == Runtime::Omlx ==> {
            let cv = command_of(c, directory, p, home, resolved_exists)->Ok_0;
            cv.args == seq!["serve"@] && cv.current_dir is None
        },
        command_of(c, directory, p, home, resolved_exists) is Ok && p.runtime != Runtime::Omlx ==> {
            let cv = command_of(c, directory, p, home, resolved_exists)->Ok_0;
            &&& cv.args.len() == p.args.len() + 2
            &&& cv.args[0] == "-m"@
            &&& p.model is Some
            &&& resolved(directory, p.model->0, home) == Some(cv.args[1])
            &&& cv.args.subrange(2, cv.args.len() as int) == p.args
            &&& cv.current_dir is Some
        },
        ({
            &&& p.runtime != Runtime::Omlx
            &&& c.runtime(p.runtime) is Some
            &&& resolved(directory, c.runtime(p.runtime)->0.executable, home) is Some
            &&& c.runtime(p.runtime)->0.working_dir matches Some(w) ==> resolved(directory, w, home) is Some
            &&& p.model is Some
            &&& resolved(directory, p.model->0, home) is Some
        }) ==> command_of(c, directory, p, home, resolved_exists) is Ok,
{
    let r = command_of(c, directory, p, home, resolved_exists);
    if r is Ok && p.runtime != Runtime::Omlx {
        let cv = r->Ok_0;
        let model = resolved(directory, p.model->0, home)->0;
        assert(cv.args == seq!["-m"@, model] + p.args);
        assert(cv.args.subrange(2, cv.args.len() as int) =~= p.args);
    }
}

/// The preview of a command that runs in the directory `d` is `cd`, the
/// quoted `d`, `&&`, and then the preview of the same command without a
/// directory; a POSIX shell reads that quoted word back as exactly `d`.
pub proof fn lemma_preview_changes_directory(cv: CommandView)
    requires
        cv.current_dir is Some,
    ensures
        preview_of(cv) == "cd "@ + quoted(cv.current_dir->0) + " && "@ + preview_of(
            CommandView { program: cv.program, args: cv.args, current_dir: None },
        ),
        sh_read(quoted(cv.current_dir->0), false) == Some(cv.current_dir->0),
{
    lemma_quote_round_trip(cv.current_dir->0);
}

/// The preview of a command with no directory is its quoted program alone
/// when it has no arguments, and each further argument adds a space and its
/// quoted form; a POSIX shell reads each quoted word back as that word.
pub proof fn lemma_preview_words(program: Seq<char>, args: Seq<Seq<char>>, arg: Seq<char>)
    ensures
        preview_of(CommandView { program, args: seq![], current_dir: None }) == quoted(program),
        preview_of(CommandView { program, args: args.push(arg), current_dir: None }) == preview_of(
            CommandView { program, args, current_dir: None },
        ) + seq![' '] + quoted(arg),
        sh_read(quoted(program), false) == Some(program),
        sh_read(quoted(arg), false) == Some(arg),
{
    let q = |w: Seq<char>| quoted(w);
    let one = seq![program].add(Seq::<Seq<char>>::empty()).map_values(q);
    assert(one =~= seq![quoted(program)]);
    let longer = seq![program].add(args.push(arg)).map_values(q);
    let shorter = seq![program].add(args).map_values(q);
    assert(longer.drop_last() =~= shorter);
    assert(longer.last() == quoted(arg));
    assert(longer.len() >= 2);
    lemma_quote_round_trip(program);
    lemma_quote_round_trip(arg);
}

} // verus!
