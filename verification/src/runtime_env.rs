//! How the daemon invokes itself, where tool configuration lives, and the
//! terminal title it sets.

use vstd::prelude::*;

use crate::paths::{is_proper_prefix, path_parent, resolved_dir, EnvVars, resolve_nomadterm_dir_from_env};
use crate::text::push_str;

verus! {

broadcast use vstd::string::group_string_axioms;

/// Whether some of `parts` is `uv`.
pub open spec fn has_uv(parts: Seq<String>) -> bool {
    exists|i: int| 0 <= i < parts.len() && (#[trigger] parts[i])@ == "uv"@
}

/// The command prefix that runs NomadTerm: `nomadterm` in a development
/// setup (`NOMADTERM_DEV_ROOT` set), `uvx nomadterm` when the resolved
/// executable path has a `uv` component, else `nomadterm`.
pub open spec fn prefix_spec(dev_root_set: bool, exe_components: Option<Seq<String>>) -> Seq<Seq<char>> {
    if !dev_root_set && exe_components is Some && has_uv(exe_components->0) {
        seq!["uvx"@, "nomadterm"@]
    } else {
        seq!["nomadterm"@]
    }
}

/// The command prefix that runs NomadTerm, from whether
/// `NOMADTERM_DEV_ROOT` is set and the components of the resolved path of
/// the running executable (none when it could not be resolved).
pub fn get_nomadterm_prefix(dev_root_set: bool, exe_components: Option<Vec<String>>) -> (p: Vec<String>)
    ensures
        p@.map_values(|s: String| s@) == prefix_spec(dev_root_set, match exe_components { Some(v) => Some(v@), None => None }),
{
    let mut uv = false;
    if !dev_root_set {
        if let Some(parts) = &exe_components {
            let want = "uv".to_owned();
            let mut i: usize = 0;
            while i < parts.len()
                invariant
                    i <= parts@.len(),
                    want@ == "uv"@,
                    !uv ==> forall|k: int| 0 <= k < i ==> (#[trigger] parts@[k])@ != "uv"@,
                    uv ==> has_uv(parts@),
                decreases parts@.len() - i,
            {
                if parts[i] == want {
                    uv = true;
                }
                i = i + 1;
            }
        }
    }
    let mut p: Vec<String> = Vec::new();
    if uv {
        p.push("uvx".to_owned());
    }
    p.push("nomadterm".to_owned());
    assert(p@.map_values(|s: String| s@) =~= prefix_spec(dev_root_set, match exe_components { Some(v) => Some(v@), None => None }));
    p
}

/// `parts` joined with single spaces.
pub open spec fn join_spaces(parts: Seq<Seq<char>>) -> Seq<char>
    decreases parts.len(),
{
    if parts.len() == 0 {
        Seq::empty()
    } else if parts.len() == 1 {
        parts[0]
    } else {
        join_spaces(parts.drop_last()) + " "@ + parts.last()
    }
}

/// The NomadTerm command line for prompts, configuration and hooks: the
/// prefix joined with spaces.
pub fn build_nomadterm_command(prefix: &Vec<String>) -> (s: String)
    ensures
        s@ == join_spaces(prefix@.map_values(|p: String| p@)),
{
    let ghost parts = prefix@.map_values(|p: String| p@);
    let mut s = String::new();
    let mut i: usize = 0;
    while i < prefix.len()
        invariant
            i <= prefix@.len(),
            parts == prefix@.map_values(|p: String| p@),
            s@ == join_spaces(parts.subrange(0, i as int)),
        decreases prefix@.len() - i,
    {
        if i > 0 {
            push_str(&mut s, " ");
        }
        push_str(&mut s, prefix[i].as_str());
        proof {
            let q = parts.subrange(0, i + 1);
            assert(q.drop_last() =~= parts.subrange(0, i as int));
            if i == 0 {
                assert(s@ =~= join_spaces(q));
            }
        }
        i = i + 1;
    }
    assert(parts.subrange(0, i as int) =~= parts);
    s
}

/// The directory holding the configuration files of the command-line tools:
/// the parent of the NomadTerm directory resolved from `env` and `cwd`,
/// else the home directory, else the empty path.
pub fn tool_config_root(env: &EnvVars, cwd: &str, home_dir: Option<String>) -> (r: String)
    ensures
        r@ == (match path_parent(resolved_dir(env@, cwd@).0) {
            Some(p) => p,
            None => match home_dir {
                Some(h) => h@,
                None => Seq::empty(),
            },
        }),
        resolved_dir(env@, cwd@).0 == seq!['/'] ==> r@ == (match home_dir {
            Some(h) => h@,
            None => Seq::<char>::empty(),
        }),
        path_parent(resolved_dir(env@, cwd@).0) is Some ==> is_proper_prefix(r@, resolved_dir(env@, cwd@).0),
{
    let (dir, _) = resolve_nomadterm_dir_from_env(env, cwd);
    match crate::paths::parent_of_path(dir.as_str()) {
        Some(p) => p,
        None => match home_dir {
            Some(h) => h,
            None => String::new(),
        },
    }
}

/// The escape sequence that sets the terminal's icon and window title to
/// `nomadterm: <instance_name>`.
pub fn terminal_title_sequence(instance_name: &str) -> (s: String)
    ensures
        s@ == "\x1b]1;nomadterm: "@ + instance_name@ + "\x07\x1b]2;nomadterm: "@ + instance_name@ + "\x07"@,
{
    let mut s = "\x1b]1;nomadterm: ".to_owned();
    push_str(&mut s, instance_name);
    push_str(&mut s, "\x07\x1b]2;nomadterm: ");
    push_str(&mut s, instance_name);
    push_str(&mut s, "\x07");
    s
}

} // verus!
