//! Reusable modules: directories that hold a main configuration file.

use vstd::prelude::*;
use crate::text::{
    chars_of, lemma_run_len_back_props, rfind, scan_run_back, string_of, subvec, CharClass,
};

verus! {

/// A module on disk.
pub struct Module {
    pub name: String,
    pub path: String,
}

/// What a look at the disk tells about a module's directory.
#[derive(Clone, Copy, Debug, PartialEq, Eq, Structural)]
pub struct ModuleFiles {
    /// Whether the module's path exists.
    pub path_exists: bool,
    /// Whether the directory holds `main.tf`.
    pub has_main_tf: bool,
    /// Whether the directory holds `main.hcl`.
    pub has_main_hcl: bool,
}

/// Why a module is refused.
#[derive(Clone, Copy, Debug, PartialEq, Eq, Structural)]
pub enum ModuleError {
    /// The module's path does not exist.
    PathMissing,
    /// The directory holds neither `main.tf` nor `main.hcl`.
    MainFileMissing,
}

/// The verdict on a module's directory.
pub open spec fn validate_spec(files: ModuleFiles) -> Result<(), ModuleError> {
    if !files.path_exists {
        Err(ModuleError::PathMissing)
    } else if !files.has_main_tf && !files.has_main_hcl {
        Err(ModuleError::MainFileMissing)
    } else {
        Ok(())
    }
}

/// What stands behind the last `/` of `location`, all of it if it has none.
pub open spec fn last_segment(location: Seq<char>) -> Seq<char> {
    location.skip(rfind(location, CharClass::Is('/')) + 1)
}

/// Whether `segment` is `.`, which stands for the directory it is in.
pub open spec fn is_here(segment: Seq<char>) -> bool {
    segment.len() == 1 && segment[0] == '.'
}

/// Whether `segment` is `..`, which stands for the directory above.
pub open spec fn is_above(segment: Seq<char>) -> bool {
    segment.len() == 2 && segment[0] == '.' && segment[1] == '.'
}

/// The last component of a path whose separator is `/`: trailing
/// separators and `.` segments are left off. A path that ends in `..` or
/// has no component has none, which the empty text stands for.
pub open spec fn last_component(path: Seq<char>) -> Seq<char>
    decreases path.len(),
    via last_component_decreases
{
    let segment = last_segment(path);
    if segment.len() == 0 || is_here(segment) {
        if rfind(path, CharClass::Is('/')) < 0 {
            Seq::empty()
        } else {
            last_component(path.take(rfind(path, CharClass::Is('/'))))
        }
    } else if is_above(segment) {
        Seq::empty()
    } else {
        segment
    }
}

#[via_fn]
proof fn last_component_decreases(path: Seq<char>) {
    lemma_run_len_back_props(path, CharClass::Is('/'), false);
}

/// The last component of `path`: see [`last_component`].
pub fn last_component_of(path: &str) -> (r: String)
    ensures
        r@ == last_component(path@),
{
    let text = chars_of(path);
    let mut end: usize = text.len();
    assert(text@.take(end as int) =~= text@);
    loop
        invariant
            end <= text.len(),
            text@ == path@,
            last_component(path@) == last_component(text@.take(end as int)),
        decreases end,
    {
        let ghost rest = text@.take(end as int);
        let tail = scan_run_back(&text, end, CharClass::Is('/'), false);
        let start = end - tail;
        let segment = subvec(&text, start, end);
        assert(segment@ =~= last_segment(rest));
        let here = segment.len() == 1 && segment[0] == '.';
        if segment.len() == 0 || here {
            if start == 0 {
                return String::new();
            }
            assert(rest.take(start - 1) =~= text@.take(start - 1));
            end = start - 1;
        } else if segment.len() == 2 && segment[0] == '.' && segment[1] == '.' {
            return String::new();
        } else {
            return string_of(&segment);
        }
    }
}

/// The name under which a fetched module is kept: the last segment of the
/// address it came from.
pub fn module_name_of(location: &str) -> (r: String)
    ensures
        r@ == last_segment(location@),
{
    let text = chars_of(location);
    assert(text@.take(text@.len() as int) =~= text@);
    let tail = scan_run_back(&text, text.len(), CharClass::Is('/'), false);
    let name = subvec(&text, text.len() - tail, text.len());
    assert(name@ =~= last_segment(location@));
    string_of(&name)
}

impl Module {
    /// The module at `path`, if its directory passes [`Module::validate`].
    /// The module is named by the last component of its path.
    pub fn load(path: &str, files: ModuleFiles) -> (r: Result<Module, ModuleError>)
        ensures
            match r {
                Ok(m) => validate_spec(files) is Ok && m.path@ == path@ && m.name@
                    == last_component(path@),
                Err(e) => validate_spec(files) == Err::<(), ModuleError>(e),
            },
    {
        let module = Module { name: last_component_of(path), path: path.to_owned() };
        match module.validate(files) {
            Err(e) => Err(e),
            Ok(_) => Ok(module),
        }
    }

    /// Checks the module's directory: the path must exist and hold
    /// `main.tf` or `main.hcl`.
    pub fn validate(&self, files: ModuleFiles) -> (r: Result<(), ModuleError>)
        ensures
            r == validate_spec(files),
    {
        if !files.path_exists {
            Err(ModuleError::PathMissing)
        } else if !files.has_main_tf && !files.has_main_hcl {
            Err(ModuleError::MainFileMissing)
        } else {
            Ok(())
        }
    }
}

} // verus!
