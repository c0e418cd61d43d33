//! What the picker lists for each launch profile, and finding a profile by
//! its ID.

use vstd::prelude::*;

use crate::catalog::{
    has_id, invalid, profiles_view, runtime_name, Config, Error, ErrorKind, Profile,
};
use crate::catalog_file::Catalog;
use crate::launch::{command_of, preview, preview_of};
use crate::paths::{opt_str_view, resolve, resolved};

verus! {

/// One line of the picker: the profile's ID and name, its runtime's name,
/// its resolved model path, and the preview of its command.
#[derive(Debug)]
pub struct Entry {
    pub id: String,
    pub name: String,
    pub runtime: String,
    pub model: Option<String>,
    pub command: String,
}

/// The picker line for profile `p` of `catalog`. `resolved_exists` tells
/// whether the profile's resolved executable exists.
pub fn entry(catalog: &Catalog, p: &Profile, home: Option<&str>, resolved_exists: bool) -> (r:
    Result<Entry, Error>)
    ensures
        match r {
            Ok(e) => {
                &&& e.id@ == p.id@
                &&& e.name@ == p.name@
                &&& e.runtime@ == runtime_name(p.runtime)
                &&& match p@.model {
                    None => e.model is None,
                    Some(m) => e.model matches Some(x) && resolved(
                        catalog.directory@,
                        m,
                        opt_str_view(home),
                    ) == Some(x@),
                }
                &&& command_of(
                    catalog.config@,
                    catalog.directory@,
                    p@,
                    opt_str_view(home),
                    resolved_exists,
                ) matches Ok(cv) && e.command@ == preview_of(cv)
            },
            Err(err) => err.kind == ErrorKind::InvalidInput && ((p@.model matches Some(m)
                && resolved(catalog.directory@, m, opt_str_view(home)) is None && err.message@
                == "HOME is not set"@) || (!(p@.model matches Some(m) && resolved(
                catalog.directory@,
                m,
                opt_str_view(home),
            ) is None) && command_of(
                catalog.config@,
                catalog.directory@,
                p@,
                opt_str_view(home),
                resolved_exists,
            ) == Err::<crate::launch::CommandView, Seq<char>>(err.message@))),
        },
{
    let model = match &p.model {
        Some(m) => Some(resolve(catalog.directory.as_str(), m.as_str(), home)?),
        None => None,
    };
    let command = preview(catalog, p, home, resolved_exists)?;
    Ok(
        Entry {
            id: p.id.clone(),
            name: p.name.clone(),
            runtime: String::from_str(p.runtime.name()),
            model,
            command,
        },
    )
}

/// The index of the profile with ID `id`; fails when there is none.
pub fn find_profile(config: &Config, id: &str) -> (r: Result<usize, Error>)
    ensures
        match r {
            Ok(i) => i < config.profiles.len() && config.profiles@[i as int].id@ == id@
                && forall|j: int| 0 <= j < i ==> config.profiles@[j].id@ != id@,
            Err(e) => !has_id(profiles_view(config.profiles@), id@) && e.kind
                == ErrorKind::InvalidInput && e.message@ == "unknown launch profile '"@ + id@
                + "'"@,
        },
{
    let target = String::from_str(id);
    let mut i: usize = 0;
    while i < config.profiles.len()
        invariant
            target@ == id@,
            i <= config.profiles.len(),
            forall|j: int| 0 <= j < i ==> config.profiles@[j].id@ != id@,
        decreases config.profiles.len() - i,
    {
        if config.profiles[i].id == target {
            return Ok(i);
        }
        i = i + 1;
    }
    proof {
        if has_id(profiles_view(config.profiles@), id@) {
            let j = choose|j: int|
                0 <= j < profiles_view(config.profiles@).len() && #[trigger] profiles_view(
                    config.profiles@,
                )[j].id == id@;
            assert(profiles_view(config.profiles@)[j] == config.profiles@[j]@);
        }
    }
    let mut m = String::from_str("unknown launch profile '");
    m.append(id);
    m.append("'");
    Err(invalid(m))
}

} // verus!
