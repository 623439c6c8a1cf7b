//! Paths as text, with `/` between their segments.

use vstd::prelude::*;
use vstd::string::*;

use crate::settings::opt_text;

verus! {

/// `file` in the directory `dir`.
pub open spec fn joined(dir: Seq<char>, file: Seq<char>) -> Seq<char> {
    if dir.len() == 0 || dir.last() == '/' {
        dir + file
    } else {
        dir.push('/') + file
    }
}

/// `file` in the directory `dir`. The file is a relative path.
pub fn join(dir: &str, file: &str) -> (r: String)
    ensures
        r@ == joined(dir@, file@),
{
    let mut out = dir.to_owned();
    let n: usize = dir.unicode_len();
    if n > 0 && dir.get_char(n - 1) != '/' {
        out.push('/');
    }
    out.append(file);
    out
}

/// The environment variables that the locations depend on. One that is not set
/// is `None`.
pub struct Env {
    pub home: Option<String>,
    pub xdg_config_home: Option<String>,
    pub xdg_state_home: Option<String>,
    pub xdg_runtime_dir: Option<String>,
}

/// The name of the directories.
pub open spec fn app_name() -> Seq<char> {
    "omarchy-connect"@
}

/// A base directory: the variable, where it is set and not empty, and otherwise
/// a directory in the home.
pub open spec fn xdg_spec(var: Option<Seq<char>>, home: Option<Seq<char>>, fallback: Seq<char>) -> Option<
    Seq<char>,
> {
    match var {
        Some(dir) if dir.len() > 0 => Some(dir),
        _ => match home {
            Some(home) => Some(joined(home, fallback)),
            None => None,
        },
    }
}

/// A file or directory in another one that may be missing.
pub open spec fn within(dir: Option<Seq<char>>, file: Seq<char>) -> Option<Seq<char>> {
    match dir {
        Some(dir) => Some(joined(dir, file)),
        None => None,
    }
}

impl Env {
    pub open spec fn config_dir_spec(&self) -> Option<Seq<char>> {
        within(
            xdg_spec(opt_text(self.xdg_config_home), opt_text(self.home), ".config"@),
            app_name(),
        )
    }

    pub open spec fn state_dir_spec(&self) -> Option<Seq<char>> {
        within(
            xdg_spec(opt_text(self.xdg_state_home), opt_text(self.home), ".local/state"@),
            app_name(),
        )
    }

    pub open spec fn runtime_dir_spec(&self) -> Option<Seq<char>> {
        match opt_text(self.xdg_runtime_dir) {
            Some(dir) if dir.len() > 0 => Some(joined(dir, app_name())),
            _ => within(self.state_dir_spec(), "run"@),
        }
    }
}

fn xdg(var: &Option<String>, home: &Option<String>, fallback: &str) -> (r: Option<String>)
    ensures
        opt_text(r) == xdg_spec(opt_text(*var), opt_text(*home), fallback@),
{
    if let Some(dir) = var {
        if dir.as_str().unicode_len() > 0 {
            return Some(dir.clone());
        }
    }
    match home {
        Some(home) => Some(join(home.as_str(), fallback)),
        None => None,
    }
}

fn inside(dir: Option<String>, file: &str) -> (r: Option<String>)
    ensures
        opt_text(r) == within(opt_text(dir), file@),
{
    match dir {
        Some(dir) => Some(join(dir.as_str(), file)),
        None => None,
    }
}

/// Where the settings are.
pub fn config_dir(env: &Env) -> (r: Option<String>)
    ensures
        opt_text(r) == env.config_dir_spec(),
{
    inside(xdg(&env.xdg_config_home, &env.home, ".config"), "omarchy-connect")
}

/// Where the portal restore token is.
pub fn state_dir(env: &Env) -> (r: Option<String>)
    ensures
        opt_text(r) == env.state_dir_spec(),
{
    inside(xdg(&env.xdg_state_home, &env.home, ".local/state"), "omarchy-connect")
}

/// Where the live status is.
pub fn runtime_dir(env: &Env) -> (r: Option<String>)
    ensures
        opt_text(r) == env.runtime_dir_spec(),
{
    if let Some(dir) = &env.xdg_runtime_dir {
        if dir.as_str().unicode_len() > 0 {
            return Some(join(dir.as_str(), "omarchy-connect"));
        }
    }
    inside(state_dir(env), "run")
}

/// The file of the unattended PIN and switch.
pub fn settings_file(env: &Env) -> (r: Option<String>)
    ensures
        opt_text(r) == within(env.config_dir_spec(), "settings.json"@),
{
    inside(config_dir(env), "settings.json")
}

/// The file of the live status.
pub fn state_file(env: &Env) -> (r: Option<String>)
    ensures
        opt_text(r) == within(env.runtime_dir_spec(), "state.json"@),
{
    inside(runtime_dir(env), "state.json")
}

/// Where a client keeps the host that it was last connected to.
pub fn saved_host_file(appdata: Option<&str>) -> (r: Option<String>)
    ensures
        opt_text(r) == within(
            within(
                match appdata {
                    Some(dir) => Some(dir@),
                    None => None,
                },
                app_name(),
            ),
            "host.txt"@,
        ),
{
    match appdata {
        Some(dir) => Some(join(join(dir, "omarchy-connect").as_str(), "host.txt")),
        None => None,
    }
}

/// A file in a directory is the two of them with one slash between. A directory that ends
/// in a slash keeps its own.
pub proof fn joined_with_one_slash(dir: Seq<char>, file: Seq<char>)
    requires
        dir.len() > 0,
        dir.last() != '/',
    ensures
        joined(dir, file) == dir + seq!['/'] + file,
        joined(dir.push('/'), file) == dir + seq!['/'] + file,
        joined(seq![], file) == file,
{
    assert(joined(dir, file) =~= dir + seq!['/'] + file);
    assert(joined(dir.push('/'), file) =~= dir + seq!['/'] + file);
    assert(joined(seq![], file) =~= file);
}

/// A variable that is set and not empty decides alone where a directory is. Otherwise it
/// is in the home, and without a home there is none. The live status is beside the token
/// where the session has no directory for it.
pub proof fn variables_come_before_the_home(env: Env, home: Seq<char>, dir: Seq<char>)
    requires
        home.len() > 0,
        home.last() != '/',
        dir.len() > 0,
        dir.last() != '/',
    ensures
        opt_text(env.xdg_config_home) == Some(dir) ==> env.config_dir_spec() == Some(
            dir + "/omarchy-connect"@,
        ),
        opt_text(env.xdg_state_home) == Some(dir) ==> env.state_dir_spec() == Some(
            dir + "/omarchy-connect"@,
        ),
        opt_text(env.xdg_runtime_dir) == Some(dir) ==> env.runtime_dir_spec() == Some(
            dir + "/omarchy-connect"@,
        ),
        env.xdg_config_home is None && opt_text(env.home) == Some(home) ==> env.config_dir_spec()
            == Some(home + "/.config/omarchy-connect"@),
        env.xdg_state_home is None && opt_text(env.home) == Some(home) ==> env.state_dir_spec()
            == Some(home + "/.local/state/omarchy-connect"@),
        env.xdg_runtime_dir is None && env.xdg_state_home is None && opt_text(env.home) == Some(
            home,
        ) ==> env.runtime_dir_spec() == Some(home + "/.local/state/omarchy-connect/run"@),
        env.xdg_config_home is None && env.home is None ==> env.config_dir_spec() is None,
        env.xdg_state_home is None && env.home is None ==> env.state_dir_spec() is None,
{
    reveal_strlit("omarchy-connect");
    reveal_strlit("/omarchy-connect");
    reveal_strlit(".config");
    reveal_strlit("/.config/omarchy-connect");
    reveal_strlit(".local/state");
    reveal_strlit("/.local/state/omarchy-connect");
    reveal_strlit("run");
    reveal_strlit("/.local/state/omarchy-connect/run");
    let c = joined(home, ".config"@);
    let s = joined(home, ".local/state"@);
    assert(c.last() == 'g');
    assert(s.last() == 'e');
    let t = joined(s, "omarchy-connect"@);
    assert(t.last() == 't');
    assert(joined(dir, "omarchy-connect"@) =~= dir + "/omarchy-connect"@);
    assert(joined(c, "omarchy-connect"@) =~= home + "/.config/omarchy-connect"@);
    assert(t =~= home + "/.local/state/omarchy-connect"@);
    assert(joined(t, "run"@) =~= home + "/.local/state/omarchy-connect/run"@);
}

/// A variable that is empty is as good as one that is not set.
pub proof fn empty_variables_do_not_count(home: Option<Seq<char>>, fallback: Seq<char>)
    ensures
        xdg_spec(Some(seq![]), home, fallback) == xdg_spec(None, home, fallback),
        home is None ==> xdg_spec(None, home, fallback) is None,
        home matches Some(h) ==> xdg_spec(None, home, fallback) == Some(joined(h, fallback)),
        within(None, fallback) is None,
{
}

} // verus!
