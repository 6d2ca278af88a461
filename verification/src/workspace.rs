//! Named workspaces: each keeps its own state file beside the project.

use vstd::prelude::*;
use crate::text::{chars_of, push_chars, string_of, strip_vec, texts, trim, CharClass};

verus! {

/// A named workspace below a working directory.
pub struct Workspace {
    pub name: String,
    pub working_dir: String,
}

/// The name of the state file of the workspace called `name`.
pub open spec fn state_file_name(name: Seq<char>) -> Seq<char> {
    "fleetform-"@ + name + ".json"@
}

/// `file` below the directory `dir`: the two are joined by one `/`, which
/// is left out where `dir` is empty or already ends in one.
pub open spec fn joined(dir: Seq<char>, file: Seq<char>) -> Seq<char> {
    if dir.len() == 0 || dir.last() == '/' {
        dir + file
    } else {
        dir + seq!['/'] + file
    }
}

/// The workspace that is current, given what the marker file holds, if
/// there is one: its trimmed content, else `default`.
pub open spec fn current_name(marker: Option<Seq<char>>) -> Seq<char> {
    match marker {
        Some(content) => trim(content),
        None => "default"@,
    }
}

impl Workspace {
    /// The workspace `name` below `working_dir`.
    pub fn new(name: &str, working_dir: String) -> (r: Workspace)
        ensures
            r.name@ == name@,
            r.working_dir == working_dir,
    {
        Workspace { name: name.to_owned(), working_dir }
    }

    /// The path of the workspace's state file: `fleetform-<name>.json`
    /// below the working directory.
    pub fn get_state_path(&self) -> (r: String)
        ensures
            r@ == joined(self.working_dir@, state_file_name(self.name@)),
    {
        let mut path = chars_of(self.working_dir.as_str());
        let n = path.len();
        if n > 0 && path[n - 1] != '/' {
            path.push('/');
        }
        let prefix = chars_of("fleetform-");
        push_chars(&mut path, &prefix);
        let name = chars_of(self.name.as_str());
        push_chars(&mut path, &name);
        let suffix = chars_of(".json");
        push_chars(&mut path, &suffix);
        assert(path@ =~= joined(self.working_dir@, state_file_name(self.name@)));
        string_of(&path)
    }

    /// The name of the current workspace: see [`current_name`].
    pub fn current_from(marker: Option<&str>) -> (r: String)
        ensures
            r@ == current_name(
                match marker {
                    Some(content) => Some(content@),
                    None => None,
                },
            ),
    {
        match marker {
            Some(content) => {
                let raw = chars_of(content);
                let name = strip_vec(&raw, CharClass::Space);
                string_of(&name)
            },
            None => "default".to_owned(),
        }
    }

    /// The workspaces to list: `default`, then those found on disk, in the
    /// order in which they were found.
    pub fn listed(found: &Vec<String>) -> (r: Vec<String>)
        ensures
            texts(r@) == seq!["default"@] + texts(found@),
    {
        let mut r: Vec<String> = Vec::new();
        r.push("default".to_owned());
        let mut i: usize = 0;
        while i < found.len()
            invariant
                i <= found.len(),
                r@.len() == i + 1,
                r@[0]@ == "default"@,
                forall|j: int| 1 <= j < r@.len() ==> (#[trigger] r@[j])@ == found@[j - 1]@,
            decreases found.len() - i,
        {
            r.push(found[i].clone());
            i = i + 1;
        }
        assert(texts(r@) =~= seq!["default"@] + texts(found@));
        r
    }
}

} // verus!
