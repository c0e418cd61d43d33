//! The questions of guided setup and what each answer decides.

use vstd::prelude::*;

use crate::catalog::{
    invalid, strings_view, Config, Error, ErrorKind, RuntimeConfig, RuntimeConfigView, Runtimes,
};
use crate::paths::{join, opt_str_view, path_join, resolve, resolved};
use crate::text::{chars_of, string_from, trim, trim_chars};

verus! {

/// The message when input ends before setup has asked everything.
pub open spec fn cancelled_message() -> Seq<char> {
    "setup cancelled before all questions were answered; configuration was not saved"@
}

/// The answer to a setup question, from the line read (`bytes_read` is what
/// reading returned; `0` means the input ended): the line trimmed of
/// surrounding whitespace.
pub fn ask(bytes_read: usize, line: &str) -> (r: Result<String, Error>)
    ensures
        bytes_read == 0 ==> (r matches Err(e) && e.kind == ErrorKind::UnexpectedEof && e.message@
            == cancelled_message()),
        bytes_read != 0 ==> (r matches Ok(a) && a@ == trim(line@)),
{
    if bytes_read == 0 {
        return Err(
            Error {
                kind: ErrorKind::UnexpectedEof,
                message: String::from_str(
                    "setup cancelled before all questions were answered; configuration was not saved",
                ),
            },
        );
    }
    let cs = chars_of(line);
    let t = trim_chars(&cs);
    Ok(string_from(&t))
}

/// The question for the next model directory of `runtime`: the first one
/// offers `default`, if any; later ones ask for another.
pub open spec fn directory_question(runtime: Seq<char>, default: Option<Seq<char>>, first: bool) -> Seq<
    char,
> {
    if first {
        match default {
            Some(p) => runtime + " model directory ["@ + p + "] (blank accepts and finishes): "@,
            None => runtime + " model directory (blank to finish): "@,
        }
    } else {
        "Another "@ + runtime + " model directory (blank to finish): "@
    }
}

/// The question for the next model directory of `runtime`.
pub fn directory_prompt(runtime: &str, default: Option<&str>, first: bool) -> (r: String)
    ensures
        r@ == directory_question(runtime@, opt_str_view(default), first),
{
    if first {
        match default {
            Some(p) => {
                let mut s = String::from_str(runtime);
                s.append(" model directory [");
                s.append(p);
                s.append("] (blank accepts and finishes): ");
                s
            },
            None => {
                let mut s = String::from_str(runtime);
                s.append(" model directory (blank to finish): ");
                s
            },
        }
    } else {
        let mut s = String::from_str("Another ");
        s.append(runtime);
        s.append(" model directory (blank to finish): ");
        s
    }
}

/// What an answer to the model-directory question asks for.
#[derive(Debug)]
pub enum DirectoryAnswer {
    /// Stop asking; take the offered default first.
    FinishWithDefault,
    /// Stop asking.
    Finish,
    /// Add the directory at this path, read relative to the current
    /// directory.
    Add(String),
}

/// What the answer `answer` to the model-directory question asks for: a
/// blank answer finishes, taking the default when no directory was given
/// yet; any other answer names a directory.
pub fn directory_answer(
    answer: &str,
    first: bool,
    has_default: bool,
    current: &str,
    home: Option<&str>,
) -> (r: Result<DirectoryAnswer, Error>)
    ensures
        answer@.len() == 0 && first && has_default ==> r matches Ok(DirectoryAnswer::FinishWithDefault),
        answer@.len() == 0 && !(first && has_default) ==> r matches Ok(DirectoryAnswer::Finish),
        answer@.len() > 0 ==> match resolved(current@, answer@, opt_str_view(home)) {
            Some(p) => r matches Ok(DirectoryAnswer::Add(q)) && q@ == p,
            None => r matches Err(e) && e.kind == ErrorKind::InvalidInput && e.message@
                == "HOME is not set"@,
        },
{
    if answer.is_empty() {
        if first && has_default {
            Ok(DirectoryAnswer::FinishWithDefault)
        } else {
            Ok(DirectoryAnswer::Finish)
        }
    } else {
        let p = resolve(current, answer, home)?;
        Ok(DirectoryAnswer::Add(p))
    }
}

/// Records the model directory at the absolute path `path` (`is_dir` tells
/// whether it is a directory): a path that is not a directory is refused,
/// and a path already listed is not listed again.
pub fn add_directory(dirs: &mut Vec<String>, path: String, is_dir: bool) -> (r: Result<(), Error>)
    ensures
        !is_dir ==> (r matches Err(e) && e.kind == ErrorKind::InvalidInput && e.message@ == path@
            + " is not a model directory"@),
        is_dir ==> r is Ok,
        is_dir && strings_view(old(dirs)@).contains(path@) ==> strings_view(final(dirs)@)
            == strings_view(old(dirs)@),
        is_dir && !strings_view(old(dirs)@).contains(path@) ==> strings_view(final(dirs)@)
            == strings_view(old(dirs)@).push(path@),
        !is_dir ==> final(dirs)@ == old(dirs)@,
{
    if !is_dir {
        let mut m = path;
        m.append(" is not a model directory");
        return Err(invalid(m));
    }
    if crate::import::contains_string(dirs, &path) {
        return Ok(());
    }
    let ghost before = dirs@;
    dirs.push(path);
    assert(strings_view(dirs@) =~= strings_view(before).push(dirs@.last()@));
    Ok(())
}

/// The question for the executable `name`, offering the one found on `PATH`.
pub open spec fn executable_question(name: Seq<char>, detected: Option<Seq<char>>) -> Seq<char> {
    match detected {
        Some(p) => name + " executable ["@ + p + "] (blank accepts, '-' skips): "@,
        None => name + " executable (blank or '-' to skip): "@,
    }
}

/// The question for the executable `name`.
pub fn executable_prompt(name: &str, detected: Option<&str>) -> (r: String)
    ensures
        r@ == executable_question(name@, opt_str_view(detected)),
{
    let mut s = String::from_str(name);
    match detected {
        Some(p) => {
            s.append(" executable [");
            s.append(p);
            s.append("] (blank accepts, '-' skips): ");
        },
        None => {
            s.append(" executable (blank or '-' to skip): ");
        },
    }
    s
}

/// The executable an answer chooses: `-` skips, a blank answer takes the
/// one found on `PATH` (if any), any other answer is a path read relative to
/// the current directory.
pub fn executable_choice(
    answer: &str,
    detected: Option<String>,
    current: &str,
    home: Option<&str>,
) -> (r: Result<Option<String>, Error>)
    ensures
        answer@ == "-"@ ==> r matches Ok(None),
        answer@.len() == 0 ==> (r matches Ok(c) && crate::catalog::opt_view(c)
            == crate::catalog::opt_view(detected)),
        answer@.len() > 0 && answer@ != "-"@ ==> match resolved(
            current@,
            answer@,
            opt_str_view(home),
        ) {
            Some(p) => r matches Ok(Some(q)) && q@ == p,
            None => r matches Err(e) && e.kind == ErrorKind::InvalidInput && e.message@
                == "HOME is not set"@,
        },
{
    proof {
        reveal_strlit("-");
    }
    let a = String::from_str(answer);
    let dash = String::from_str("-");
    if a == dash {
        Ok(None)
    } else if answer.is_empty() {
        Ok(detected)
    } else {
        let p = resolve(current, answer, home)?;
        Ok(Some(p))
    }
}

/// A file with these permission bits can be run: some execute bit is set.
pub open spec fn executable_mode(mode: u32) -> bool {
    mode & 0o111 != 0
}

/// Checks that the file at `path` (shown as `path` in the message) is a
/// file that can be run.
pub fn check_executable(path: &str, is_file: bool, mode: u32) -> (r: Result<(), Error>)
    ensures
        r is Ok <==> is_file && executable_mode(mode),
        r matches Err(e) ==> e.kind == ErrorKind::InvalidInput && e.message@ == path@
            + " is not an executable file"@,
{
    if !is_file || mode & 0o111 == 0 {
        let mut m = String::from_str(path);
        m.append(" is not an executable file");
        return Err(invalid(m));
    }
    Ok(())
}

/// The text of a new catalog file: a header comment, then the document.
pub open spec fn new_catalog_text(document: Seq<char>) -> Seq<char> {
    "# lml catalog: edit profiles here; `lml import` only adds entries.\n"@ + document
}

/// The text of a new catalog file around the serialized configuration.
pub fn catalog_text(document: &str) -> (r: String)
    ensures
        r@ == new_catalog_text(document@),
{
    let mut s = String::from_str("# lml catalog: edit profiles here; `lml import` only adds entries.\n");
    s.append(document);
    s
}

/// Where a DwarfStar checkout keeps its server and, by default, its models:
/// `ds4-server` and `gguf` inside the checkout.
pub fn dwarfstar_layout(checkout: &str) -> (r: (String, String))
    ensures
        r.0@ == crate::paths::path_join(checkout@, "ds4-server"@),
        r.1@ == crate::paths::path_join(checkout@, "gguf"@),
{
    (crate::paths::join(checkout, "ds4-server"), crate::paths::join(checkout, "gguf"))
}

/// The checkout that the answer to the DwarfStar question names: a blank
/// answer skips DwarfStar; any other is a path read relative to the current
/// directory.
pub fn dwarfstar_checkout(answer: &str, current: &str, home: Option<&str>) -> (r: Result<
    Option<String>,
    Error,
>)
    ensures
        answer@.len() == 0 ==> r matches Ok(None),
        answer@.len() > 0 ==> match resolved(current@, answer@, opt_str_view(home)) {
            Some(p) => r matches Ok(Some(q)) && q@ == p,
            None => r matches Err(e) && e.kind == ErrorKind::InvalidInput && e.message@
                == "HOME is not set"@,
        },
{
    if answer.is_empty() {
        Ok(None)
    } else {
        let p = resolve(current, answer, home)?;
        Ok(Some(p))
    }
}

/// The configuration that setup writes: DwarfStar runs `ds4-server` in its
/// checkout, llama.cpp and oMLX run their executables, only the per-model
/// runtimes have model directories, and there are no profiles yet.
pub fn setup_config(
    dwarfstar: Option<(String, Vec<String>)>,
    llama_cpp: Option<(String, Vec<String>)>,
    omlx: Option<String>,
) -> (r: Config)
    ensures
        r.profiles@.len() == 0,
        match dwarfstar {
            None => r.runtimes.dwarfstar is None,
            Some((checkout, dirs)) => r.runtimes.dwarfstar matches Some(c) && c@ == (
            RuntimeConfigView {
                executable: path_join(checkout@, "ds4-server"@),
                model_dirs: strings_view(dirs@),
                working_dir: Some(checkout@),
            }),
        },
        match llama_cpp {
            None => r.runtimes.llama_cpp is None,
            Some((executable, dirs)) => r.runtimes.llama_cpp matches Some(c) && c@ == (
            RuntimeConfigView {
                executable: executable@,
                model_dirs: strings_view(dirs@),
                working_dir: None,
            }),
        },
        match omlx {
            None => r.runtimes.omlx is None,
            Some(executable) => r.runtimes.omlx matches Some(c) && c@ == (RuntimeConfigView {
                executable: executable@,
                model_dirs: seq![],
                working_dir: None,
            }),
        },
{
    let d = match dwarfstar {
        None => None,
        Some((checkout, dirs)) => {
            let executable = join(checkout.as_str(), "ds4-server");
            Some(RuntimeConfig { executable, model_dirs: dirs, working_dir: Some(checkout) })
        },
    };
    let l = match llama_cpp {
        None => None,
        Some((executable, dirs)) => Some(
            RuntimeConfig { executable, model_dirs: dirs, working_dir: None },
        ),
    };
    let o = match omlx {
        None => None,
        Some(executable) => {
            let c = RuntimeConfig { executable, model_dirs: Vec::new(), working_dir: None };
            assert(strings_view(c.model_dirs@) =~= Seq::<Seq<char>>::empty());
            Some(c)
        },
    };
    Config { runtimes: Runtimes { dwarfstar: d, llama_cpp: l, omlx: o }, profiles: Vec::new() }
}

} // verus!
