//! Path handling for catalog entries: joining, home expansion, and the parts
//! of a file name that the import rules read.

use vstd::prelude::*;

use crate::catalog::{invalid_str, strings_view, Error, ErrorKind};
use crate::text::{chars_of, string_from};

verus! {

/// The text of `std::path::Path::new(base).join(path)` on Unix: an
/// absolute `path` replaces `base`; otherwise `path` follows `base`, with a
/// `/` between them unless `base` is empty or already ends in one.
pub open spec fn path_join(base: Seq<char>, path: Seq<char>) -> Seq<char> {
    if is_absolute(path) {
        path
    } else if base.len() > 0 && base.last() != '/' {
        base + seq!['/'] + path
    } else {
        base + path
    }
}

/// The rest of `path` after a leading `~` component, as
/// `Path::strip_prefix("~")` gives it; `None` when `path` does not start
/// with that component.
pub uninterp spec fn path_strip_home(path: Seq<char>) -> Option<Seq<char>>;

/// The text of `Path::file_stem` of `path`.
pub uninterp spec fn path_file_stem(path: Seq<char>) -> Option<Seq<char>>;

/// The text of `Path::extension` of `path`.
pub uninterp spec fn path_extension(path: Seq<char>) -> Option<Seq<char>>;

/// The text of `Path::parent` of `path`.
pub uninterp spec fn path_parent(path: Seq<char>) -> Option<Seq<char>>;

/// The texts of the components that `Path::components` yields for `path`.
pub uninterp spec fn path_components(path: Seq<char>) -> Seq<Seq<char>>;

/// The path's first component is `~`: it is `~` or starts with `~/`.
pub open spec fn starts_with_home(path: Seq<char>) -> bool {
    (path.len() == 1 && path[0] == '~') || (path.len() >= 2 && path[0] == '~' && path[1] == '/')
}

/// The path is absolute on Unix: it starts with `/`.
pub open spec fn is_absolute(path: Seq<char>) -> bool {
    path.len() > 0 && path[0] == '/'
}

/// Joins `path` onto `base` as `Path::join` does on Unix.
pub fn join(base: &str, path: &str) -> (r: String)
    ensures
        r@ == path_join(base@, path@),
{
    let b = chars_of(base);
    let p = chars_of(path);
    if p.len() > 0 && p[0] == '/' {
        return string_from(&p);
    }
    let mut out = b;
    if out.len() > 0 && out[out.len() - 1] != '/' {
        out.push('/');
    }
    let mut i: usize = 0;
    let ghost start = out@;
    while i < p.len()
        invariant
            i <= p.len(),
            out@ == start + p@.subrange(0, i as int),
        decreases p.len() - i,
    {
        out.push(p[i]);
        i = i + 1;
        assert(out@ =~= start + p@.subrange(0, i as int));
    }
    assert(p@.subrange(0, p.len() as int) =~= p@);
    string_from(&out)
}

/// The part of `path` after a leading `~` component.
///
/// Trusted: calls `Path::strip_prefix` with `"~"`. Claims that the result
/// is a function of `path`; that a path whose text does not start with `~`
/// has no such component; and, as `strip_prefix` and `starts_with` document
/// (whole components match), that `~` and a path starting with `~/` do.
#[verifier::external_body]
pub fn strip_home(path: &str) -> (r: Option<String>)
    ensures
        match r {
            Some(s) => path_strip_home(path@) == Some(s@),
            None => path_strip_home(path@) is None,
        },
        path@.len() == 0 || path@[0] != '~' ==> r is None,
        starts_with_home(path@) ==> r is Some,
{
    match std::path::Path::new(path).strip_prefix("~") {
        Ok(rest) => Some(rest.to_string_lossy().into_owned()),
        Err(_) => None,
    }
}

/// The file stem of `path`.
///
/// Trusted: calls `Path::file_stem`. Claims that the result is a function
/// of `path`, and that an empty path, which has no final component and so
/// no file name, has no stem.
#[verifier::external_body]
pub fn file_stem(path: &str) -> (r: Option<String>)
    ensures
        match r {
            Some(s) => path_file_stem(path@) == Some(s@),
            None => path_file_stem(path@) is None,
        },
        path@.len() == 0 ==> r is None,
{
    std::path::Path::new(path).file_stem().map(|s| s.to_string_lossy().into_owned())
}

/// The extension of `path`.
///
/// Trusted: calls `Path::extension`. Claims only that the result is a
/// function of `path`.
#[verifier::external_body]
pub fn extension(path: &str) -> (r: Option<String>)
    ensures
        match r {
            Some(s) => path_extension(path@) == Some(s@),
            None => path_extension(path@) is None,
        },
{
    std::path::Path::new(path).extension().map(|s| s.to_string_lossy().into_owned())
}

/// The parent of `path`.
///
/// Trusted: calls `Path::parent`. Claims only that the result is a function
/// of `path`.
#[verifier::external_body]
pub fn parent(path: &str) -> (r: Option<String>)
    ensures
        match r {
            Some(s) => path_parent(path@) == Some(s@),
            None => path_parent(path@) is None,
        },
{
    std::path::Path::new(path).parent().map(|s| s.to_string_lossy().into_owned())
}

/// The components of `path`, each as text.
///
/// Trusted: calls `Path::components` and converts each component to its
/// text. Claims only that the result is a function of `path`.
#[verifier::external_body]
pub fn components(path: &str) -> (r: Vec<String>)
    ensures
        strings_view(r@) == path_components(path@),
{
    std::path::Path::new(path).components().map(|c| c.as_os_str().to_string_lossy().into_owned()).collect()
}

/// Where `path` points when read relative to the catalog directory
/// `directory`: a leading `~` stands for `home`.
pub open spec fn resolved(directory: Seq<char>, path: Seq<char>, home: Option<Seq<char>>) -> Option<
    Seq<char>,
> {
    match path_strip_home(path) {
        Some(rest) => match home {
            Some(h) => Some(path_join(h, rest)),
            None => None,
        },
        None => Some(path_join(directory, path)),
    }
}

/// Resolves `path` against `directory`, expanding a leading `~` to `home`.
/// Fails when the path starts with `~` and no home directory is known.
pub fn resolve(directory: &str, path: &str, home: Option<&str>) -> (r: Result<String, Error>)
    ensures
        match r {
            Ok(p) => resolved(directory@, path@, opt_str_view(home)) == Some(p@),
            Err(e) => resolved(directory@, path@, opt_str_view(home)) is None && e.kind
                == ErrorKind::InvalidInput && e.message@ == "HOME is not set"@,
        },
        is_absolute(path@) ==> (r matches Ok(p) && p@ == path@),
        path@.len() == 0 || path@[0] != '~' ==> (r matches Ok(p) && p@ == path_join(directory@, path@)),
        starts_with_home(path@) ==> (r is Ok <==> home is Some),
{
    match strip_home(path) {
        Some(rest) => match home {
            Some(h) => Ok(join(h, rest.as_str())),
            None => Err(invalid_str("HOME is not set")),
        },
        None => Ok(join(directory, path)),
    }
}

/// The text of an optional string slice.
pub open spec fn opt_str_view(s: Option<&str>) -> Option<Seq<char>> {
    match s {
        Some(t) => Some(t@),
        None => None,
    }
}

/// The catalog's default location: under `xdg_config_home` when that is
/// set, else `~/.config/lml/config.toml`.
pub open spec fn default_location(xdg_config_home: Option<Seq<char>>, home: Option<Seq<char>>) -> Option<
    Seq<char>,
> {
    match xdg_config_home {
        Some(base) => Some(path_join(base, "lml/config.toml"@)),
        None => resolved("."@, "~/.config/lml/config.toml"@, home),
    }
}

/// The catalog's default path, from `XDG_CONFIG_HOME` and `HOME`.
pub fn default_path(xdg_config_home: Option<&str>, home: Option<&str>) -> (r: Result<String, Error>)
    ensures
        match r {
            Ok(p) => default_location(opt_str_view(xdg_config_home), opt_str_view(home)) == Some(p@),
            Err(e) => default_location(opt_str_view(xdg_config_home), opt_str_view(home)) is None
                && e.kind == ErrorKind::InvalidInput && e.message@ == "HOME is not set"@,
        },
        xdg_config_home is None ==> (r is Ok <==> home is Some),
{
    proof {
        reveal_strlit("~/.config/lml/config.toml");
    }
    match xdg_config_home {
        Some(base) => Ok(join(base, "lml/config.toml")),
        None => resolve(".", "~/.config/lml/config.toml", home),
    }
}

} // verus!
