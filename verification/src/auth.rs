//! Keystone credentials, found the way the `openstack` CLI finds them:
//! `OS_*` environment variables first, then `clouds.yaml`.

use vstd::prelude::*;

verus! {

/// Everything needed for a password-scoped Keystone v3 login.
pub struct CloudAuth {
    pub auth_url: String,
    pub username: String,
    pub password: String,
    pub project_name: String,
    pub user_domain_name: String,
    pub project_domain_name: String,
    pub region_name: Option<String>,
}

/// The mathematical value of a `CloudAuth`.
pub struct CloudAuthView {
    pub auth_url: Seq<char>,
    pub username: Seq<char>,
    pub password: Seq<char>,
    pub project_name: Seq<char>,
    pub user_domain_name: Seq<char>,
    pub project_domain_name: Seq<char>,
    pub region_name: Option<Seq<char>>,
}

/// The view of an optional string.
pub open spec fn opt_str(o: Option<String>) -> Option<Seq<char>> {
    match o {
        Some(s) => Some(s@),
        None => None,
    }
}

impl View for CloudAuth {
    type V = CloudAuthView;

    open spec fn view(&self) -> CloudAuthView {
        CloudAuthView {
            auth_url: self.auth_url@,
            username: self.username@,
            password: self.password@,
            project_name: self.project_name@,
            user_domain_name: self.user_domain_name@,
            project_domain_name: self.project_domain_name@,
            region_name: opt_str(self.region_name),
        }
    }
}

/// The `OS_*` environment variables, each as `std::env::var(..).ok()` reads
/// it (absent, or not valid Unicode, is `None`).
pub struct CloudEnv {
    /// `OS_AUTH_URL`
    pub auth_url: Option<String>,
    /// `OS_USERNAME`
    pub username: Option<String>,
    /// `OS_PASSWORD`
    pub password: Option<String>,
    /// `OS_PROJECT_NAME`
    pub project_name: Option<String>,
    /// `OS_USER_DOMAIN_NAME`
    pub user_domain_name: Option<String>,
    /// `OS_PROJECT_DOMAIN_NAME`
    pub project_domain_name: Option<String>,
    /// `OS_REGION_NAME`
    pub region_name: Option<String>,
    /// `OS_CLOUD`: the entry of `clouds.yaml` to use
    pub cloud: Option<String>,
}

/// The `auth` section of a `clouds.yaml` entry.
pub struct CloudEntryAuth {
    pub auth_url: String,
    pub username: String,
    pub password: String,
    pub project_name: String,
    /// `Default` where the file leaves it out
    pub user_domain_name: String,
    /// `Default` where the file leaves it out
    pub project_domain_name: String,
}

/// One cloud of a `clouds.yaml`.
pub struct CloudEntry {
    pub auth: CloudEntryAuth,
    pub region_name: Option<String>,
}

/// A parsed `clouds.yaml`: its clouds by name, in the order in which its
/// map yields them.
pub struct CloudsFile {
    pub clouds: Vec<(String, CloudEntry)>,
}

/// The domain that Keystone uses where none is named.
pub open spec fn default_domain_of() -> Seq<char> {
    "Default"@
}

/// The domain that Keystone uses where none is named: `Default`.
pub fn default_domain() -> (r: String)
    ensures
        r@ == default_domain_of(),
{
    String::from_str("Default")
}

/// The credentials that the environment gives: `None` unless
/// `OS_AUTH_URL`, `OS_USERNAME`, `OS_PASSWORD` and `OS_PROJECT_NAME` are all
/// set; the domains default to `Default`.
pub open spec fn auth_from_env_of(env: CloudEnv) -> Option<CloudAuthView> {
    match (env.auth_url, env.username, env.password, env.project_name) {
        (Some(auth_url), Some(username), Some(password), Some(project_name)) => Some(
            CloudAuthView {
                auth_url: auth_url@,
                username: username@,
                password: password@,
                project_name: project_name@,
                user_domain_name: match env.user_domain_name {
                    Some(d) => d@,
                    None => default_domain_of(),
                },
                project_domain_name: match env.project_domain_name {
                    Some(d) => d@,
                    None => default_domain_of(),
                },
                region_name: opt_str(env.region_name),
            },
        ),
        _ => None,
    }
}

/// The credentials of one `clouds.yaml` entry.
pub open spec fn auth_from_entry_of(e: CloudEntry) -> CloudAuthView {
    CloudAuthView {
        auth_url: e.auth.auth_url@,
        username: e.auth.username@,
        password: e.auth.password@,
        project_name: e.auth.project_name@,
        user_domain_name: e.auth.user_domain_name@,
        project_domain_name: e.auth.project_domain_name@,
        region_name: opt_str(e.region_name),
    }
}

/// The index of the first cloud named `name` from `i` on (`clouds.len()` if
/// there is none).
pub open spec fn named_cloud_from(clouds: Seq<(String, CloudEntry)>, name: Seq<char>, i: int) -> int
    decreases clouds.len() - i,
{
    if i < 0 || i >= clouds.len() {
        clouds.len() as int
    } else if clouds[i].0@ == name {
        i
    } else {
        named_cloud_from(clouds, name, i + 1)
    }
}

/// The entry that a `clouds.yaml` selects: the one named `name`, or the
/// first one where no name is given.
pub open spec fn selected_cloud_of(clouds: Seq<(String, CloudEntry)>, name: Option<Seq<char>>) -> Option<
    CloudEntry,
> {
    match name {
        Some(n) => {
            let k = named_cloud_from(clouds, n, 0);
            if 0 <= k < clouds.len() {
                Some(clouds[k].1)
            } else {
                None
            }
        },
        None => if clouds.len() > 0 {
            Some(clouds[0].1)
        } else {
            None
        },
    }
}

/// The index of the first file from `i` on that was read and parsed
/// (`files.len()` if there is none).
pub open spec fn first_parsed_from(files: Seq<Option<CloudsFile>>, i: int) -> int
    decreases files.len() - i,
{
    if i < 0 || i >= files.len() {
        files.len() as int
    } else if files[i] is Some {
        i
    } else {
        first_parsed_from(files, i + 1)
    }
}

/// The credentials that the `clouds.yaml` candidates give: the first one
/// that was read and parsed decides; the search stops there even where it
/// holds no matching entry.
pub open spec fn auth_from_files_of(files: Seq<Option<CloudsFile>>, name: Option<Seq<char>>) -> Option<
    CloudAuthView,
> {
    let k = first_parsed_from(files, 0);
    if 0 <= k < files.len() {
        match selected_cloud_of(files[k]->0.clouds@, name) {
            Some(e) => Some(auth_from_entry_of(e)),
            None => None,
        }
    } else {
        None
    }
}

/// The credentials found: those of the environment where it has them all,
/// else those of the `clouds.yaml` candidates, with `OS_CLOUD` naming the
/// entry.
pub open spec fn discover_of(env: CloudEnv, files: Seq<Option<CloudsFile>>) -> Option<CloudAuthView> {
    match auth_from_env_of(env) {
        Some(a) => Some(a),
        None => auth_from_files_of(files, opt_str(env.cloud)),
    }
}

/// The view of optional credentials.
pub open spec fn auth_opt_view(r: Option<CloudAuth>) -> Option<CloudAuthView> {
    match r {
        Some(a) => Some(a@),
        None => None,
    }
}

fn clone_opt(o: &Option<String>) -> (r: Option<String>)
    ensures
        opt_str(r) == opt_str(*o),
{
    match o {
        Some(s) => Some(s.clone()),
        None => None,
    }
}

/// The credentials that the environment gives (see `auth_from_env_of`).
pub fn discover_from_env(env: &CloudEnv) -> (r: Option<CloudAuth>)
    ensures
        auth_opt_view(r) == auth_from_env_of(*env),
{
    match (&env.auth_url, &env.username, &env.password, &env.project_name) {
        (Some(auth_url), Some(username), Some(password), Some(project_name)) => {
            let user_domain_name = match &env.user_domain_name {
                Some(d) => d.clone(),
                None => default_domain(),
            };
            let project_domain_name = match &env.project_domain_name {
                Some(d) => d.clone(),
                None => default_domain(),
            };
            Some(
                CloudAuth {
                    auth_url: auth_url.clone(),
                    username: username.clone(),
                    password: password.clone(),
                    project_name: project_name.clone(),
                    user_domain_name,
                    project_domain_name,
                    region_name: clone_opt(&env.region_name),
                },
            )
        },
        _ => None,
    }
}

fn auth_from_entry(e: &CloudEntry) -> (r: CloudAuth)
    ensures
        r@ == auth_from_entry_of(*e),
{
    CloudAuth {
        auth_url: e.auth.auth_url.clone(),
        username: e.auth.username.clone(),
        password: e.auth.password.clone(),
        project_name: e.auth.project_name.clone(),
        user_domain_name: e.auth.user_domain_name.clone(),
        project_domain_name: e.auth.project_domain_name.clone(),
        region_name: clone_opt(&e.region_name),
    }
}

/// The entry of `file` that `name` selects (see `selected_cloud_of`).
pub fn select_cloud<'a>(file: &'a CloudsFile, name: &Option<String>) -> (r: Option<&'a CloudEntry>)
    ensures
        match r {
            Some(e) => selected_cloud_of(file.clouds@, opt_str(*name)) == Some(*e),
            None => selected_cloud_of(file.clouds@, opt_str(*name)) is None,
        },
{
    match name {
        Some(n) => {
            let mut i: usize = 0;
            assert(opt_str(*name) == Some(n@));
            while i < file.clouds.len()
                invariant
                    i <= file.clouds.len(),
                    opt_str(*name) == Some(n@),
                    named_cloud_from(file.clouds@, n@, 0) == named_cloud_from(
                        file.clouds@,
                        n@,
                        i as int,
                    ),
                decreases file.clouds.len() - i,
            {
                if file.clouds[i].0 == *n {
                    assert(file.clouds@[i as int].0@ == n@);
                    assert(named_cloud_from(file.clouds@, n@, i as int) == i);
                    assert(selected_cloud_of(file.clouds@, opt_str(*name)) == Some(
                        file.clouds@[i as int].1,
                    ));
                    let e = &file.clouds[i].1;
                    assert(*e == file.clouds@[i as int].1);
                    return Some(e);
                }
                i += 1;
            }
            None
        },
        None => if file.clouds.len() > 0 {
            Some(&file.clouds[0].1)
        } else {
            None
        },
    }
}

/// The credentials that the `clouds.yaml` candidates give, in search order,
/// each `None` where it could not be read or parsed (see
/// `auth_from_files_of`).
pub fn discover_from_clouds_files(files: &Vec<Option<CloudsFile>>, name: &Option<String>) -> (r:
    Option<CloudAuth>)
    ensures
        auth_opt_view(r) == auth_from_files_of(files@, opt_str(*name)),
{
    let mut i: usize = 0;
    while i < files.len()
        invariant
            i <= files.len(),
            first_parsed_from(files@, 0) == first_parsed_from(files@, i as int),
        decreases files.len() - i,
    {
        match &files[i] {
            Some(file) => {
                return match select_cloud(file, name) {
                    Some(e) => Some(auth_from_entry(e)),
                    None => None,
                };
            },
            None => {},
        }
        i += 1;
    }
    None
}

/// Finds credentials: the environment's where it has them all, else the
/// first readable `clouds.yaml` candidate's (see `discover_of`).
pub fn discover(env: &CloudEnv, clouds_files: &Vec<Option<CloudsFile>>) -> (r: Option<CloudAuth>)
    ensures
        auth_opt_view(r) == discover_of(*env, clouds_files@),
{
    match discover_from_env(env) {
        Some(a) => Some(a),
        None => discover_from_clouds_files(clouds_files, &env.cloud),
    }
}


/// Complete credentials in the environment win over any `clouds.yaml`;
/// without them, the first `clouds.yaml` that could be read decides.
pub proof fn lemma_environment_first(env: CloudEnv, files: Seq<Option<CloudsFile>>)
    ensures
        auth_from_env_of(env) is Some ==> discover_of(env, files) == auth_from_env_of(env),
        auth_from_env_of(env) is None ==> discover_of(env, files) == auth_from_files_of(
            files,
            opt_str(env.cloud),
        ),
{
}


/// Credentials found in the environment are exactly what its variables say:
/// with `OS_AUTH_URL`, `OS_USERNAME`, `OS_PASSWORD` and `OS_PROJECT_NAME`
/// set, discovery gives those four values, each domain variable or
/// `Default` where it is unset, and `OS_REGION_NAME` as the region (none
/// where it is unset), whatever the `clouds.yaml` files hold.
pub proof fn lemma_environment_fields(
    env: CloudEnv,
    files: Seq<Option<CloudsFile>>,
    auth_url: String,
    username: String,
    password: String,
    project_name: String,
)
    requires
        env.auth_url == Some(auth_url),
        env.username == Some(username),
        env.password == Some(password),
        env.project_name == Some(project_name),
    ensures
        discover_of(env, files) is Some,
        discover_of(env, files).unwrap().auth_url == auth_url@,
        discover_of(env, files).unwrap().username == username@,
        discover_of(env, files).unwrap().password == password@,
        discover_of(env, files).unwrap().project_name == project_name@,
        discover_of(env, files).unwrap().region_name == match env.region_name {
            Some(r) => Some(r@),
            None => None::<Seq<char>>,
        },
        env.user_domain_name matches Some(d) ==> discover_of(env, files).unwrap().user_domain_name
            == d@,
        env.user_domain_name is None ==> discover_of(env, files).unwrap().user_domain_name
            == "Default"@,
        env.project_domain_name matches Some(d) ==> discover_of(env, files).unwrap().project_domain_name
            == d@,
        env.project_domain_name is None ==> discover_of(env, files).unwrap().project_domain_name
            == "Default"@,
{
    lemma_environment_first(env, files);
}

/// Whether the `clouds.yaml` search must go on: no candidate read so far
/// could be read and parsed.
pub fn needs_more_files(files: &Vec<Option<CloudsFile>>) -> (r: bool)
    ensures
        r == (first_parsed_from(files@, 0) >= files@.len()),
{
    let mut i: usize = 0;
    while i < files.len()
        invariant
            i <= files.len(),
            first_parsed_from(files@, 0) == first_parsed_from(files@, i as int),
        decreases files.len() - i,
    {
        if files[i].is_some() {
            return false;
        }
        i += 1;
    }
    true
}

proof fn lemma_first_parsed_bounds(files: Seq<Option<CloudsFile>>, i: int)
    requires
        0 <= i <= files.len(),
    ensures
        i <= first_parsed_from(files, i) <= files.len(),
    decreases files.len() - i,
{
    if i < files.len() && files[i] is None {
        lemma_first_parsed_bounds(files, i + 1);
    }
}

proof fn lemma_first_parsed_extend(
    files: Seq<Option<CloudsFile>>,
    more: Seq<Option<CloudsFile>>,
    i: int,
)
    requires
        0 <= i <= files.len(),
        first_parsed_from(files, i) < files.len(),
    ensures
        first_parsed_from(files + more, i) == first_parsed_from(files, i),
    decreases files.len() - i,
{
    assert((files + more)[i] == files[i]);
    if files[i] is None {
        lemma_first_parsed_extend(files, more, i + 1);
    }
}

/// Once a `clouds.yaml` candidate has been read and parsed, the candidates
/// after it change nothing: the search may stop there.
pub proof fn lemma_later_files_ignored(
    env: CloudEnv,
    files: Seq<Option<CloudsFile>>,
    more: Seq<Option<CloudsFile>>,
)
    requires
        first_parsed_from(files, 0) < files.len(),
    ensures
        discover_of(env, files + more) == discover_of(env, files),
{
    lemma_first_parsed_extend(files, more, 0);
    lemma_first_parsed_bounds(files, 0);
    let k = first_parsed_from(files, 0);
    assert((files + more)[k] == files[k]);
}

} // verus!
