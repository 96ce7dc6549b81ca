//! Where the user's identity comes from. The sources count in this order: the
//! editor's initialization options, a configuration file, the environment,
//! and last the defaults.
use vstd::prelude::*;
use vstd::string::*;

verus! {

/// The user name when no source gives one.
pub const DEFAULT_USERNAME: &'static str = "marvin";

/// What follows the user name in the address used when no source gives one.
pub const EMAIL_DOMAIN: &'static str = "@student.42.fr";

/// A configuration file's path below `$XDG_CONFIG_HOME`.
pub const XDG_CONFIG_FILE: &'static str = "42header/config.toml";

/// A configuration file's path below the home directory.
pub const HOME_CONFIG_FILE: &'static str = ".config/42header/config.toml";

/// The dot file in the home directory (or, with no home directory, in the
/// working directory).
pub const DOT_CONFIG_FILE: &'static str = ".42header.toml";

/// An identity as one source gives it; either part may be missing.
pub struct UserConfig {
    pub username: Option<String>,
    pub email: Option<String>,
}

/// The characters of an optional string.
pub open spec fn opt_view(o: Option<String>) -> Option<Seq<char>> {
    match o {
        Some(s) => Some(s@),
        None => None,
    }
}

impl UserConfig {
    pub open spec fn username_view(&self) -> Option<Seq<char>> {
        opt_view(self.username)
    }

    pub open spec fn email_view(&self) -> Option<Seq<char>> {
        opt_view(self.email)
    }

    pub fn new(username: Option<String>, email: Option<String>) -> (r: Self)
        ensures
            r.username == username,
            r.email == email,
    {
        UserConfig { username, email }
    }
}

impl Default for UserConfig {
    /// A source that gives nothing.
    fn default() -> (r: Self)
        ensures
            r.username is None,
            r.email is None,
    {
        UserConfig { username: None, email: None }
    }
}

/// The first of three optional values that is present.
pub open spec fn first_given(
    a: Option<Seq<char>>,
    b: Option<Seq<char>>,
    c: Option<Seq<char>>,
) -> Option<Seq<char>> {
    if a is Some {
        a
    } else if b is Some {
        b
    } else {
        c
    }
}

/// The address of a user who gave none.
pub open spec fn default_email(user: Seq<char>) -> Seq<char> {
    user + EMAIL_DOMAIN@
}

/// The user name that the three sources give together.
pub open spec fn resolved_username(i: UserConfig, f: UserConfig, e: UserConfig) -> Seq<char> {
    match first_given(i.username_view(), f.username_view(), e.username_view()) {
        Some(u) => u,
        None => DEFAULT_USERNAME@,
    }
}

/// The address that the three sources give together.
pub open spec fn resolved_email(i: UserConfig, f: UserConfig, e: UserConfig) -> Seq<char> {
    match first_given(i.email_view(), f.email_view(), e.email_view()) {
        Some(m) => m,
        None => default_email(resolved_username(i, f, e)),
    }
}

/// The first of three optional strings that is present.
fn first_of(a: Option<String>, b: Option<String>, c: Option<String>) -> (r: Option<String>)
    ensures
        opt_view(r) == first_given(opt_view(a), opt_view(b), opt_view(c)),
{
    match a {
        Some(x) => Some(x),
        None => match b {
            Some(x) => Some(x),
            None => c,
        },
    }
}

/// `user` followed by the default address domain.
pub fn email_for(user: &str) -> (r: String)
    ensures
        r@ == default_email(user@),
{
    let mut m = String::from_str(user);
    m.append(EMAIL_DOMAIN);
    m
}

/// Merges the sources: for each part the first source that gives it wins;
/// the user name defaults to `marvin`, the address to the user name followed
/// by `@student.42.fr`.
pub fn resolve_config(init_opts: UserConfig, file_cfg: UserConfig, env_cfg: UserConfig) -> (r: (
    String,
    String,
))
    ensures
        r.0@ == resolved_username(init_opts, file_cfg, env_cfg),
        r.1@ == resolved_email(init_opts, file_cfg, env_cfg),
{
    let ghost (i, f, e) = (init_opts, file_cfg, env_cfg);
    let UserConfig { username: iu, email: im } = init_opts;
    let UserConfig { username: fu, email: fm } = file_cfg;
    let UserConfig { username: eu, email: em } = env_cfg;
    let username = match first_of(iu, fu, eu) {
        Some(u) => u,
        None => String::from_str(DEFAULT_USERNAME),
    };
    assert(username@ == resolved_username(i, f, e));
    let email = match first_of(im, fm, em) {
        Some(m) => m,
        None => email_for(username.as_str()),
    };
    (username, email)
}

/// The identity that the environment gives: the user name from `USER42`,
/// else `USER`, else `USERNAME`; the address from `MAIL42`.
pub fn env_config(
    user42: Option<String>,
    user: Option<String>,
    username: Option<String>,
    mail42: Option<String>,
) -> (r: UserConfig)
    ensures
        r.username_view() == first_given(opt_view(user42), opt_view(user), opt_view(username)),
        r.email == mail42,
{
    UserConfig { username: first_of(user42, user, username), email: mail42 }
}

/// The configuration that the first readable and well-formed file gives
/// (`found` holds, in the order of the candidate paths, what each file gave).
pub open spec fn first_found(found: Seq<Option<UserConfig>>) -> Option<UserConfig>
    decreases found.len(),
{
    if found.len() == 0 {
        None
    } else if found[0] is Some {
        found[0]
    } else {
        first_found(found.skip(1))
    }
}

/// The first file that gave a configuration counts: when the files before
/// position `k` gave nothing and the one at `k` gave a configuration, that is
/// the one found, whatever the later files give.
pub proof fn lemma_first_file_counts(found: Seq<Option<UserConfig>>, k: int)
    requires
        0 <= k < found.len(),
        found[k] is Some,
        forall|j: int| 0 <= j < k ==> #[trigger] found[j] is None,
    ensures
        first_found(found) == found[k],
    decreases k,
{
    if k > 0 {
        let rest = found.skip(1);
        assert forall|j: int| 0 <= j < k - 1 implies #[trigger] rest[j] is None by {
            assert(rest[j] == found[j + 1]);
        }
        lemma_first_file_counts(rest, k - 1);
        assert(found[0] is None);
    }
}

/// Files that gave nothing count for nothing.
pub proof fn lemma_no_file_found(found: Seq<Option<UserConfig>>)
    requires
        forall|j: int| 0 <= j < found.len() ==> #[trigger] found[j] is None,
    ensures
        first_found(found) is None,
    decreases found.len(),
{
    if found.len() > 0 {
        let rest = found.skip(1);
        assert forall|j: int| 0 <= j < rest.len() implies #[trigger] rest[j] is None by {
            assert(rest[j] == found[j + 1]);
        }
        lemma_no_file_found(rest);
    }
}

/// The configuration of the first file that gave one, or an empty one.
pub fn first_loaded(found: Vec<Option<UserConfig>>) -> (r: UserConfig)
    ensures
        match first_found(found@) {
            Some(c) => r == c,
            None => r.username is None && r.email is None,
        },
{
    let ghost all = found@;
    let mut rest = found;
    let mut best: Option<UserConfig> = None;
    while rest.len() > 0
        invariant
            rest@ == all.take(rest@.len() as int),
            rest@.len() <= all.len(),
            best == first_found(all.skip(rest@.len() as int)),
        decreases rest@.len(),
    {
        let ghost k = rest@.len() as int;
        let x = rest.pop().unwrap();
        proof {
            assert(all.skip(k - 1)[0] == x);
            assert(all.skip(k - 1).skip(1) =~= all.skip(k));
            assert(rest@ =~= all.take(k - 1));
        }
        if x.is_some() {
            best = x;
        }
    }
    proof {
        assert(all.skip(0) =~= all);
    }
    match best {
        Some(c) => c,
        None => UserConfig::default(),
    }
}

/// A candidate configuration file: `file` below the directory `dir`, or below
/// the working directory when `dir` is `None`.
pub struct ConfigPath {
    pub dir: Option<String>,
    pub file: String,
}

impl ConfigPath {
    pub open spec fn view(&self) -> (Option<Seq<char>>, Seq<char>) {
        (opt_view(self.dir), self.file@)
    }
}

/// The candidate configuration files, in the order in which they are tried:
/// below `$XDG_CONFIG_HOME` when it is set, then the two below the home
/// directory when there is one.
pub open spec fn config_paths(xdg: Option<Seq<char>>, home: Option<Seq<char>>) -> Seq<
    (Option<Seq<char>>, Seq<char>),
> {
    let a = match xdg {
        Some(d) => seq![(Some(d), XDG_CONFIG_FILE@)],
        None => seq![],
    };
    let b = match home {
        Some(d) => seq![(Some(d), HOME_CONFIG_FILE@), (Some(d), DOT_CONFIG_FILE@)],
        None => seq![],
    };
    a + b
}

/// Where a new configuration file belongs: below `$XDG_CONFIG_HOME`, else
/// below the home directory, else the dot file in the working directory.
pub open spec fn default_path(xdg: Option<Seq<char>>, home: Option<Seq<char>>) -> (
    Option<Seq<char>>,
    Seq<char>,
) {
    match xdg {
        Some(d) => (Some(d), XDG_CONFIG_FILE@),
        None => match home {
            Some(d) => (Some(d), HOME_CONFIG_FILE@),
            None => (None, DOT_CONFIG_FILE@),
        },
    }
}

/// The home directory: `$HOME`, else `$USERPROFILE`.
pub fn home_dir(home: Option<String>, userprofile: Option<String>) -> (r: Option<String>)
    ensures
        r == (if home is Some {
            home
        } else {
            userprofile
        }),
{
    match home {
        Some(h) => Some(h),
        None => userprofile,
    }
}

/// The candidate configuration files (see `config_paths`).
pub fn config_file_paths(xdg_config_home: Option<String>, home: Option<String>) -> (r: Vec<
    ConfigPath,
>)
    ensures
        r@.map_values(|p: ConfigPath| p.view()) == config_paths(
            opt_view(xdg_config_home),
            opt_view(home),
        ),
{
    let ghost xv = opt_view(xdg_config_home);
    let ghost hv = opt_view(home);
    let mut paths: Vec<ConfigPath> = Vec::new();
    match xdg_config_home {
        Some(d) => {
            paths.push(ConfigPath { dir: Some(d), file: String::from_str(XDG_CONFIG_FILE) });
        },
        None => {},
    }
    match home {
        Some(d) => {
            let d2 = d.clone();
            paths.push(ConfigPath { dir: Some(d), file: String::from_str(HOME_CONFIG_FILE) });
            paths.push(ConfigPath { dir: Some(d2), file: String::from_str(DOT_CONFIG_FILE) });
        },
        None => {},
    }
    assert(paths@.map_values(|p: ConfigPath| p.view()) =~= config_paths(xv, hv));
    paths
}

/// Where a new configuration file belongs (see `default_path`).
pub fn default_config_path(xdg_config_home: Option<String>, home: Option<String>) -> (r:
    ConfigPath)
    ensures
        r.view() == default_path(opt_view(xdg_config_home), opt_view(home)),
{
    match xdg_config_home {
        Some(d) => ConfigPath { dir: Some(d), file: String::from_str(XDG_CONFIG_FILE) },
        None => match home {
            Some(d) => ConfigPath { dir: Some(d), file: String::from_str(HOME_CONFIG_FILE) },
            None => ConfigPath { dir: None, file: String::from_str(DOT_CONFIG_FILE) },
        },
    }
}

/// The candidate configuration files, and nothing else: with
/// `$XDG_CONFIG_HOME` set, first `42header/config.toml` below it; with a home
/// directory, then `.config/42header/config.toml` and `.42header.toml` below
/// it, whether or not `$XDG_CONFIG_HOME` is set. A new file goes below
/// `$XDG_CONFIG_HOME`, else below the home directory, else to `.42header.toml`
/// in the working directory.
pub proof fn lemma_candidate_files(xdg: Option<Seq<char>>, home: Option<Seq<char>>)
    ensures
        config_paths(xdg, home).len() == (if xdg is Some {
            1int
        } else {
            0
        }) + (if home is Some {
            2int
        } else {
            0
        }),
        xdg matches Some(x) ==> config_paths(xdg, home)[0] == (Some(x), "42header/config.toml"@),
        home matches Some(h) ==> ({
            let ps = config_paths(xdg, home);
            &&& ps[ps.len() - 2] == (Some(h), ".config/42header/config.toml"@)
            &&& ps[ps.len() - 1] == (Some(h), ".42header.toml"@)
        }),
        xdg matches Some(x) ==> default_path(xdg, home) == (Some(x), "42header/config.toml"@),
        xdg is None ==> (home matches Some(h) ==> default_path(xdg, home) == (
            Some(h),
            ".config/42header/config.toml"@,
        )),
        xdg is None && home is None ==> default_path(xdg, home) == (
            None::<Seq<char>>,
            ".42header.toml"@,
        ),
{
}

/// Where a new configuration file belongs is the first place where one is
/// looked for, whenever `$XDG_CONFIG_HOME` or a home directory is known.
pub proof fn lemma_default_path_is_first_candidate(
    xdg: Option<Seq<char>>,
    home: Option<Seq<char>>,
)
    requires
        xdg is Some || home is Some,
    ensures
        config_paths(xdg, home).len() > 0,
        config_paths(xdg, home)[0] == default_path(xdg, home),
{
}

/// Each part of the merged identity comes from the first source that gives
/// it: a part given by the initialization options is never overridden, and a
/// source is consulted only for what the ones before it left open.
pub proof fn lemma_priority(i: UserConfig, f: UserConfig, e: UserConfig)
    ensures
        i.username is Some ==> resolved_username(i, f, e) == i.username->0@,
        i.username is None && f.username is Some ==> resolved_username(i, f, e)
            == f.username->0@,
        i.username is None && f.username is None && e.username is Some ==> resolved_username(
            i,
            f,
            e,
        ) == e.username->0@,
        i.username is None && f.username is None && e.username is None ==> resolved_username(
            i,
            f,
            e,
        ) == "marvin"@,
        i.email is Some ==> resolved_email(i, f, e) == i.email->0@,
        i.email is None && f.email is Some ==> resolved_email(i, f, e) == f.email->0@,
        i.email is None && f.email is None && e.email is Some ==> resolved_email(i, f, e)
            == e.email->0@,
        i.email is None && f.email is None && e.email is None ==> resolved_email(i, f, e)
            == resolved_username(i, f, e) + "@student.42.fr"@,
{
}

} // verus!
