//! The build configuration: what to install and how the image should run.
//!
//! The image options mirror the config fields of an OCI image
//! configuration; turning them into the runtime configuration defaults the
//! `PATH` variable and merges command-line labels over configured ones.

use crate::store::RunConfig;
use vstd::prelude::*;
use vstd::string::StringExecFns;

verus! {

/// Whether documentation files are installed when nothing is configured.
pub fn docs_default() -> (b: bool)
    ensures
        b == false,
{
    false
}

/// Whether `/etc/os-release` is made a dependency when nothing is
/// configured.
pub fn os_release_default() -> (b: bool)
    ensures
        b == true,
{
    true
}

/// Image configuration options, as read from the build manifest.
pub struct ImageConfig {
    /// The user the process runs as, if set.
    pub user: Option<String>,
    /// The set of exposed ports.
    pub exposed_ports: Vec<String>,
    /// Environment variables as key/value pairs.
    pub envs: Vec<(String, String)>,
    /// The entrypoint argument list.
    pub entrypoint: Vec<String>,
    /// The default command argument list.
    pub cmd: Vec<String>,
    /// The set of volume mount points.
    pub volumes: Vec<String>,
    /// Image labels as key/value pairs.
    pub labels: Vec<(String, String)>,
    /// The working directory, if set.
    pub workingdir: Option<String>,
    /// The stop signal, if set.
    pub stopsignal: Option<String>,
    /// The image author, if set.
    pub author: Option<String>,
}

/// Configuration of the packages to install.
pub struct PackageConfig {
    /// The repositories to resolve against.
    pub repositories: Vec<Repository>,
    /// The package specs to install.
    pub packages: Vec<String>,
    /// The GPG keys packages must verify against.
    pub gpgkeys: Vec<String>,
    /// Whether to install documentation files.
    pub docs: bool,
    /// Whether `/etc/os-release` is a dependency of the resolution.
    pub os_release: bool,
}

/// The build manifest: the contents to install and the image options.
pub struct Config {
    /// What to install.
    pub contents: PackageConfig,
    /// How the image runs.
    pub image: ImageConfig,
}

/// The value of the first pair holding the key, if any.
pub open spec fn assoc_find(ps: Seq<(String, String)>, key: Seq<char>) -> Option<Seq<char>>
    decreases ps.len(),
{
    if ps.len() == 0 {
        None
    } else if ps[0].0@ == key {
        Some(ps[0].1@)
    } else {
        assoc_find(ps.drop_first(), key)
    }
}

/// The pairs of extras whose keys are absent from the base, in order.
pub open spec fn extras_not_in(
    base: Seq<(String, String)>,
    extra: Seq<(String, String)>,
) -> Seq<(Seq<char>, Seq<char>)>
    decreases extra.len(),
{
    if extra.len() == 0 {
        Seq::<(Seq<char>, Seq<char>)>::empty()
    } else if assoc_find(base, extra.last().0@) is Some {
        extras_not_in(base, extra.drop_last())
    } else {
        extras_not_in(base, extra.drop_last()).push((extra.last().0@, extra.last().1@))
    }
}

/// The configured labels with command-line labels merged over them: each
/// base label keeps its place, taking the extra value where one names its
/// key; extras naming new keys follow in their own order.
pub open spec fn merged_labels(
    base: Seq<(String, String)>,
    extra: Seq<(String, String)>,
) -> Seq<(Seq<char>, Seq<char>)> {
    base.map(
        |i: int, p: (String, String)|
            (
                p.0@,
                match assoc_find(extra, p.0@) {
                    Some(v) => v,
                    None => p.1@,
                },
            ),
    ) + extras_not_in(base, extra)
}

/// One rendered environment entry, `KEY=VALUE`.
pub open spec fn env_line(k: Seq<char>, v: Seq<char>) -> Seq<char> {
    k + "="@ + v
}

/// The environment pairs with `PATH` defaulted when absent.
pub open spec fn envs_with_path(envs: Seq<(String, String)>) -> Seq<(Seq<char>, Seq<char>)> {
    let views = envs.map(|i: int, p: (String, String)| (p.0@, p.1@));
    if assoc_find(envs, "PATH"@) is Some {
        views
    } else {
        views.push(("PATH"@, "/usr/local/bin:/usr/local/sbin:/usr/bin:/usr/sbin:/bin:/sbin"@))
    }
}

/// The rendered environment entries, in order, with `PATH` defaulted.
pub open spec fn env_lines(envs: Seq<(String, String)>) -> Seq<Seq<char>> {
    envs_with_path(envs).map(|i: int, p: (Seq<char>, Seq<char>)| env_line(p.0, p.1))
}

/// The views of a list of label pairs.
pub open spec fn pair_views(ps: Seq<(String, String)>) -> Seq<(Seq<char>, Seq<char>)> {
    ps.map(|i: int, p: (String, String)| (p.0@, p.1@))
}

/// The value of the first pair holding the key, cloned.
pub fn assoc_get(ps: &Vec<(String, String)>, key: &String) -> (r: Option<String>)
    ensures
        match r {
            Some(v) => assoc_find(ps@, key@) == Some(v@),
            None => assoc_find(ps@, key@) is None,
        },
{
    let mut i: usize = 0;
    proof {
        assert(ps@.skip(0) =~= ps@);
    }
    while i < ps.len()
        invariant
            i <= ps@.len(),
            assoc_find(ps@, key@) == assoc_find(ps@.skip(i as int), key@),
        decreases ps@.len() - i,
    {
        proof {
            assert(ps@.skip(i as int)[0] == ps@[i as int]);
            assert(ps@.skip(i as int).drop_first() =~= ps@.skip(i + 1));
        }
        if ps[i].0.eq(key) {
            return Some(ps[i].1.clone());
        }
        i = i + 1;
    }
    proof {
        assert(ps@.skip(ps@.len() as int) =~= Seq::<(String, String)>::empty());
    }
    None
}

impl ImageConfig {
    /// The runtime configuration this image configuration stands for, with
    /// the given command-line labels merged over the configured ones and
    /// the `PATH` variable defaulted when not set.
    pub fn to_run_config(self, cli_labels: &Vec<(String, String)>) -> (r: (
        RunConfig,
        Option<String>,
    ))
        ensures
            r.0.user == self.user,
            r.0.exposed_ports == self.exposed_ports,
            string_views(r.0.env@) == env_lines(self.envs@),
            r.0.entrypoint == self.entrypoint,
            r.0.cmd == self.cmd,
            r.0.volumes == self.volumes,
            r.0.workingdir == self.workingdir,
            pair_views(r.0.labels@) == merged_labels(self.labels@, cli_labels@),
            r.0.stopsignal == self.stopsignal,
            r.1 == self.author,
    {
        let mut labels: Vec<(String, String)> = Vec::new();
        let mut i: usize = 0;
        let ghost base = self.labels@;
        let ghost mapped = base.map(
            |bi: int, p: (String, String)|
                (
                    p.0@,
                    match assoc_find(cli_labels@, p.0@) {
                        Some(v) => v,
                        None => p.1@,
                    },
                ),
        );
        proof {
            assert(pair_views(labels@) =~= mapped.take(0));
        }
        while i < self.labels.len()
            invariant
                i <= base.len(),
                base == self.labels@,
                mapped == base.map(
                    |bi: int, p: (String, String)|
                        (
                            p.0@,
                            match assoc_find(cli_labels@, p.0@) {
                                Some(v) => v,
                                None => p.1@,
                            },
                        ),
                ),
                pair_views(labels@) == mapped.take(i as int),
            decreases base.len() - i,
        {
            let key = self.labels[i].0.clone();
            let value = match assoc_get(cli_labels, &key) {
                Option::Some(v) => v,
                Option::None => self.labels[i].1.clone(),
            };
            let ghost prev = pair_views(labels@);
            labels.push((key, value));
            proof {
                assert(mapped[i as int] == (base[i as int].0@, match assoc_find(
                    cli_labels@,
                    base[i as int].0@,
                ) {
                    Some(v) => v,
                    None => base[i as int].1@,
                }));
                assert(pair_views(labels@) =~= prev.push(mapped[i as int]));
                assert(pair_views(labels@) =~= mapped.take(i + 1));
            }
            i = i + 1;
        }
        proof {
            assert(mapped.take(base.len() as int) =~= mapped);
        }
        let mut j: usize = 0;
        proof {
            assert(extras_not_in(base, cli_labels@.take(0)) =~= Seq::<
                (Seq<char>, Seq<char>),
            >::empty());
            assert(pair_views(labels@) =~= mapped + extras_not_in(base, cli_labels@.take(0)));
        }
        while j < cli_labels.len()
            invariant
                j <= cli_labels@.len(),
                base == self.labels@,
                mapped == base.map(
                    |bi: int, p: (String, String)|
                        (
                            p.0@,
                            match assoc_find(cli_labels@, p.0@) {
                                Some(v) => v,
                                None => p.1@,
                            },
                        ),
                ),
                pair_views(labels@) == mapped + extras_not_in(base, cli_labels@.take(j as int)),
            decreases cli_labels@.len() - j,
        {
            let key = cli_labels[j].0.clone();
            let ghost prev = pair_views(labels@);
            let present = match assoc_get(&self.labels, &key) {
                Option::Some(_) => true,
                Option::None => false,
            };
            if !present {
                labels.push((key, cli_labels[j].1.clone()));
            }
            proof {
                assert(cli_labels@.take(j + 1).drop_last() =~= cli_labels@.take(j as int));
                assert(cli_labels@.take(j + 1).last() == cli_labels@[j as int]);
                if present {
                    assert(pair_views(labels@) =~= mapped + extras_not_in(
                        base,
                        cli_labels@.take(j + 1),
                    ));
                } else {
                    assert(pair_views(labels@) =~= prev.push(
                        (cli_labels@[j as int].0@, cli_labels@[j as int].1@),
                    ));
                    assert(pair_views(labels@) =~= mapped + extras_not_in(
                        base,
                        cli_labels@.take(j + 1),
                    ));
                }
            }
            j = j + 1;
        }
        proof {
            assert(cli_labels@.take(cli_labels@.len() as int) =~= cli_labels@);
        }

        let mut env: Vec<String> = Vec::new();
        let ghost withp = envs_with_path(self.envs@);
        let mut e: usize = 0;
        proof {
            assert(string_views(env@) =~= env_lines(self.envs@).take(0));
        }
        while e < self.envs.len()
            invariant
                e <= self.envs@.len(),
                withp == envs_with_path(self.envs@),
                withp.len() >= self.envs@.len(),
                forall|t: int|
                    0 <= t < self.envs@.len() ==> #[trigger] withp[t] == (
                        self.envs@[t].0@,
                        self.envs@[t].1@,
                    ),
                string_views(env@) == env_lines(self.envs@).take(e as int),
            decreases self.envs@.len() - e,
        {
            let mut line = self.envs[e].0.clone();
            line.append("=");
            line.append(self.envs[e].1.as_str());
            let ghost prev = string_views(env@);
            env.push(line);
            proof {
                assert(env_lines(self.envs@)[e as int] == env_line(
                    withp[e as int].0,
                    withp[e as int].1,
                ));
                assert(string_views(env@) =~= prev.push(env_lines(self.envs@)[e as int]));
                assert(string_views(env@) =~= env_lines(self.envs@).take(e + 1));
            }
            e = e + 1;
        }
        let path_key = String::from_str("PATH");
        proof {
            reveal_strlit("PATH");
        }
        let has_path = match assoc_get(&self.envs, &path_key) {
            Option::Some(_) => true,
            Option::None => false,
        };
        if !has_path {
            let mut line = String::from_str("PATH");
            line.append("=");
            line.append("/usr/local/bin:/usr/local/sbin:/usr/bin:/usr/sbin:/bin:/sbin");
            let ghost gline = line@;
            let ghost prev = string_views(env@);
            env.push(line);
            proof {
                let nn = self.envs@.len() as int;
                assert(withp.len() == self.envs@.len() + 1);
                assert(withp[nn] == (
                    "PATH"@,
                    "/usr/local/bin:/usr/local/sbin:/usr/bin:/usr/sbin:/bin:/sbin"@,
                ));
                assert(gline == env_line(
                    "PATH"@,
                    "/usr/local/bin:/usr/local/sbin:/usr/bin:/usr/sbin:/bin:/sbin"@,
                ));
                assert(env_lines(self.envs@)[nn] == env_line(withp[nn].0, withp[nn].1));
                assert(string_views(env@) =~= prev.push(gline));
                assert(env_lines(self.envs@).len() == nn + 1);
                assert(prev == env_lines(self.envs@).take(nn));
                assert(string_views(env@) =~= env_lines(self.envs@));
            }
        } else {
            proof {
                assert(withp.len() == self.envs@.len());
                assert(env_lines(self.envs@).len() == self.envs@.len());
                assert(env_lines(self.envs@).take(self.envs@.len() as int) =~= env_lines(
                    self.envs@,
                ));
                assert(string_views(env@) == env_lines(self.envs@));
            }
        }

        (
            RunConfig {
                user: self.user,
                exposed_ports: self.exposed_ports,
                env,
                entrypoint: self.entrypoint,
                cmd: self.cmd,
                volumes: self.volumes,
                workingdir: self.workingdir,
                labels,
                stopsignal: self.stopsignal,
            },
            self.author,
        )
    }
}

/// The views of a list of strings.
pub open spec fn string_views(ss: Seq<String>) -> Seq<Seq<char>> {
    ss.map(|i: int, s: String| s@)
}

/// Configuration of one package repository: a bare URL, the id of a
/// repository configured on the system, or a full definition.
pub enum Repository {
    /// The repository's base URL; its id is derived from it.
    Url(String),
    /// The id of a repository configured on the system.
    Id(String),
    /// A full repository definition.
    Definition(RepositoryDefinition),
}

/// A repository defined by URL with options.
pub struct RepositoryDefinition {
    /// An explicit repository id, if set.
    pub id: Option<String>,
    /// The base URL of the repository.
    pub url: String,
    /// Additional repository options as key/value pairs.
    pub options: Vec<(String, String)>,
}

/// The registered domain a URL names, if it parses and has one; computed
/// by the url crate.
pub uninterp spec fn url_domain_of(s: Seq<char>) -> Option<Seq<char>>;

/// The path segments of a URL, if it parses and its path is segmented;
/// computed by the url crate.
pub uninterp spec fn url_segments_of(s: Seq<char>) -> Option<Seq<Seq<char>>>;

/// Relies on url::Url::parse and Url::domain: both depend on the text
/// alone.
#[verifier::external_body]
fn url_domain(u: &str) -> (r: Option<String>)
    ensures
        match r {
            Some(d) => url_domain_of(u@) == Some(d@),
            None => url_domain_of(u@) is None,
        },
{
    match url::Url::parse(u) {
        Ok(parsed) => parsed.domain().map(|d| d.to_string()),
        Err(_) => None,
    }
}

/// Relies on url::Url::parse and Url::path_segments: both depend on the
/// text alone.
#[verifier::external_body]
fn url_path_segments(u: &str) -> (r: Option<Vec<String>>)
    ensures
        match r {
            Some(ss) => url_segments_of(u@) == Some(string_views(ss@)),
            None => url_segments_of(u@) is None,
        },
{
    match url::Url::parse(u) {
        Ok(parsed) => parsed.path_segments().map(
            |segments| segments.map(|s| s.to_string()).collect(),
        ),
        Err(_) => None,
    }
}

/// The segments joined with underscores.
pub open spec fn join_underscore(ss: Seq<Seq<char>>) -> Seq<char>
    decreases ss.len(),
{
    if ss.len() == 0 {
        Seq::<char>::empty()
    } else if ss.len() == 1 {
        ss[0]
    } else {
        join_underscore(ss.drop_last()) + "_"@ + ss.last()
    }
}

/// The id derived from a repository URL: its domain, an underscore, and
/// its path segments joined with underscores; absent parts are empty.
pub open spec fn url_id(u: Seq<char>) -> Seq<char> {
    (match url_domain_of(u) {
        Some(d) => d,
        None => Seq::<char>::empty(),
    }) + "_"@ + (match url_segments_of(u) {
        Some(ss) => join_underscore(ss),
        None => Seq::<char>::empty(),
    })
}

/// The effective id of a repository: an explicit id where one is set,
/// else an id derived from the URL.
pub open spec fn repo_id_spec(r: Repository) -> Seq<char> {
    match r {
        Repository::Id(id) => id@,
        Repository::Definition(d) => match d.id {
            Some(id) => id@,
            None => url_id(d.url@),
        },
        Repository::Url(u) => url_id(u@),
    }
}

impl Repository {
    /// The repository's effective id: the explicit id where one is set,
    /// else the domain and path of its URL joined with underscores.
    pub fn repo_id(&self) -> (r: String)
        ensures
            r@ == repo_id_spec(*self),
    {
        match self {
            Repository::Id(id) => id.clone(),
            Repository::Definition(d) => match &d.id {
                Option::Some(id) => id.clone(),
                Option::None => url_id_exec(&d.url),
            },
            Repository::Url(u) => url_id_exec(u),
        }
    }
}

/// The id derived from a repository URL.
fn url_id_exec(u: &String) -> (r: String)
    ensures
        r@ == url_id(u@),
{
    let mut out = match url_domain(u.as_str()) {
        Option::Some(d) => d,
        Option::None => String::new(),
    };
    out.append("_");
    match url_path_segments(u.as_str()) {
        Option::Some(ss) => {
            let ghost segs = string_views(ss@);
            let mut i: usize = 0;
            proof {
                assert(join_underscore(segs.take(0)) =~= Seq::<char>::empty());
                assert(out@ =~= out@ + join_underscore(segs.take(0)));
            }
            let ghost head = out@;
            while i < ss.len()
                invariant
                    i <= ss@.len(),
                    segs == string_views(ss@),
                    out@ == head + join_underscore(segs.take(i as int)),
                decreases ss@.len() - i,
            {
                if i > 0 {
                    out.append("_");
                }
                out.append(ss[i].as_str());
                proof {
                    assert(segs.take(i + 1).drop_last() =~= segs.take(i as int));
                    assert(segs.take(i + 1).last() == segs[i as int]);
                    assert(segs[i as int] == ss@[i as int]@);
                    assert(out@ =~= head + join_underscore(segs.take(i + 1)));
                }
                i = i + 1;
            }
            proof {
                assert(segs.take(segs.len() as int) =~= segs);
                assert(out@ =~= url_id(u@));
            }
        },
        Option::None => {
            proof {
                assert(out@ =~= url_id(u@));
            }
        },
    }
    out
}


/// A dnf repository keyword value: a string, or a list of strings.
pub enum KwValue {
    /// A plain string value.
    Str(String),
    /// A list value, as `baseurl` takes.
    List(Vec<String>),
}

/// The key specs joined with single spaces.
pub open spec fn join_space(ss: Seq<String>) -> Seq<char>
    decreases ss.len(),
{
    if ss.len() == 0 {
        Seq::<char>::empty()
    } else if ss.len() == 1 {
        ss[0]@
    } else {
        join_space(ss.drop_last()) + " "@ + ss.last()@
    }
}

/// The value an option carries in the keyword list: a `gpgkey` option has
/// the global keys appended, any other passes through.
pub open spec fn kw_option_value(key: Seq<char>, value: Seq<char>, joined: Seq<char>) -> Seq<
    char,
> {
    if key == "gpgkey"@ {
        value + " "@ + joined
    } else {
        value
    }
}

/// The keyword arguments configuring one dnf repository: its base URL,
/// the configured options with global GPG keys folded into any `gpgkey`
/// option, defaults for GPG checking, TLS verification and keys where the
/// options leave them unset, and any credentials.
pub fn repo_kwargs(
    repo_url: &String,
    repo_options: &Vec<(String, String)>,
    gpgkeys: &Vec<String>,
    username: Option<String>,
    password: Option<String>,
) -> (r: Vec<(String, KwValue)>)
    ensures
        ({
            let joined = join_space(gpgkeys@);
            let opts = repo_options@;
            let no_gpgcheck = assoc_find(opts, "gpgcheck"@) is None;
            let no_sslverify = assoc_find(opts, "sslverify"@) is None;
            let no_gpgkey = assoc_find(opts, "gpgkey"@) is None;
            let b = 1 + opts.len() as int;
            let i_ssl = b + (if no_gpgcheck {
                1int
            } else {
                0int
            });
            let i_key = i_ssl + (if no_sslverify {
                1int
            } else {
                0int
            });
            let i_user = i_key + (if no_gpgkey {
                1int
            } else {
                0int
            });
            let i_pass = i_user + (if username is Some {
                1int
            } else {
                0int
            });
            &&& r@.len() == i_pass + (if password is Some {
                1int
            } else {
                0int
            })
            &&& r@[0].0@ == "baseurl"@
            &&& (r@[0].1 matches KwValue::List(l) && string_views(l@) == seq![repo_url@])
            &&& (forall|i: int|
                0 <= i < opts.len() ==> (#[trigger] r@[1 + i]).0@ == opts[i].0@ && (r@[1 + i].1
                    matches KwValue::Str(v) && v@ == kw_option_value(
                    opts[i].0@,
                    opts[i].1@,
                    joined,
                )))
            &&& no_gpgcheck ==> r@[b].0@ == "gpgcheck"@ && (r@[b].1 matches KwValue::Str(v) && v@
                == "True"@)
            &&& no_sslverify ==> r@[i_ssl].0@ == "sslverify"@ && (r@[i_ssl].1 matches
                KwValue::Str(v) && v@ == "True"@)
            &&& no_gpgkey ==> r@[i_key].0@ == "gpgkey"@ && (r@[i_key].1 matches KwValue::Str(v)
                && v@ == joined)
            &&& (username matches Some(u) ==> r@[i_user].0@ == "username"@ && (r@[i_user].1
                matches KwValue::Str(v) && v@ == u@))
            &&& (password matches Some(p) ==> r@[i_pass].0@ == "password"@ && (r@[i_pass].1
                matches KwValue::Str(v) && v@ == p@))
        }),
{
    let joined = join_space_exec(gpgkeys);
    let mut r: Vec<(String, KwValue)> = Vec::new();
    let mut base_list: Vec<String> = Vec::new();
    base_list.push(repo_url.clone());
    proof {
        assert(string_views(base_list@) =~= seq![repo_url@]);
    }
    r.push((String::from_str("baseurl"), KwValue::List(base_list)));
    let mut i: usize = 0;
    while i < repo_options.len()
        invariant
            i <= repo_options@.len(),
            r@.len() == 1 + i,
            joined@ == join_space(gpgkeys@),
            r@[0].0@ == "baseurl"@,
            (r@[0].1 matches KwValue::List(l) && string_views(l@) == seq![repo_url@]),
            forall|j: int|
                0 <= j < i ==> (#[trigger] r@[1 + j]).0@ == repo_options@[j].0@ && (r@[1 + j].1
                    matches KwValue::Str(v) && v@ == kw_option_value(
                    repo_options@[j].0@,
                    repo_options@[j].1@,
                    joined@,
                )),
        decreases repo_options@.len() - i,
    {
        let key = repo_options[i].0.clone();
        let gpgkey_lit = String::from_str("gpgkey");
        let value = if key.eq(&gpgkey_lit) {
            let mut v = repo_options[i].1.clone();
            v.append(" ");
            v.append(joined.as_str());
            v
        } else {
            repo_options[i].1.clone()
        };
        r.push((key, KwValue::Str(value)));
        i = i + 1;
    }
    let gpgcheck_lit = String::from_str("gpgcheck");
    if matches!(assoc_get(repo_options, &gpgcheck_lit), Option::None) {
        r.push((gpgcheck_lit, KwValue::Str(String::from_str("True"))));
    }
    let sslverify_lit = String::from_str("sslverify");
    if matches!(assoc_get(repo_options, &sslverify_lit), Option::None) {
        r.push((sslverify_lit, KwValue::Str(String::from_str("True"))));
    }
    let gpgkey_lit = String::from_str("gpgkey");
    if matches!(assoc_get(repo_options, &gpgkey_lit), Option::None) {
        r.push((gpgkey_lit, KwValue::Str(joined)));
    }
    match username {
        Option::Some(u) => {
            r.push((String::from_str("username"), KwValue::Str(u)));
        },
        Option::None => {},
    }
    match password {
        Option::Some(p) => {
            r.push((String::from_str("password"), KwValue::Str(p)));
        },
        Option::None => {},
    }
    r
}

/// The key specs joined with single spaces.
fn join_space_exec(ss: &Vec<String>) -> (r: String)
    ensures
        r@ == join_space(ss@),
{
    let mut out = String::new();
    let mut i: usize = 0;
    proof {
        assert(out@ =~= join_space(ss@.take(0)));
    }
    while i < ss.len()
        invariant
            i <= ss@.len(),
            out@ == join_space(ss@.take(i as int)),
        decreases ss@.len() - i,
    {
        if i > 0 {
            out.append(" ");
        }
        out.append(ss[i].as_str());
        proof {
            assert(ss@.take(i + 1).drop_last() =~= ss@.take(i as int));
            assert(ss@.take(i + 1).last() == ss@[i as int]);
            if i == 0 {
                assert(out@ =~= join_space(ss@.take(1)));
            } else {
                assert(out@ =~= join_space(ss@.take(i + 1)));
            }
        }
        i = i + 1;
    }
    proof {
        assert(ss@.take(ss@.len() as int) =~= ss@);
    }
    out
}


/// The ids of the repositories configured by system id, in order: these
/// are enabled from the system configuration rather than defined anew.
pub open spec fn repo_ids_spec(repos: Seq<Repository>) -> Seq<Seq<char>>
    decreases repos.len(),
{
    if repos.len() == 0 {
        Seq::<Seq<char>>::empty()
    } else {
        repo_ids_spec(repos.drop_last()) + (match repos.last() {
            Repository::Id(id) => seq![id@],
            _ => Seq::<Seq<char>>::empty(),
        })
    }
}

/// The ids of the repositories configured by system id, in order.
pub fn repo_ids(repos: &Vec<Repository>) -> (r: Vec<String>)
    ensures
        string_views(r@) == repo_ids_spec(repos@),
{
    let mut out: Vec<String> = Vec::new();
    let mut i: usize = 0;
    proof {
        assert(string_views(out@) =~= repo_ids_spec(repos@.take(0))) by {
            assert(repos@.take(0) =~= Seq::<Repository>::empty());
        }
    }
    while i < repos.len()
        invariant
            i <= repos@.len(),
            string_views(out@) == repo_ids_spec(repos@.take(i as int)),
        decreases repos@.len() - i,
    {
        let ghost prev = string_views(out@);
        proof {
            assert(repos@.take(i + 1).drop_last() =~= repos@.take(i as int));
            assert(repos@.take(i + 1).last() == repos@[i as int]);
        }
        match &repos[i] {
            Repository::Id(id) => {
                out.push(id.clone());
                proof {
                    assert(string_views(out@) =~= prev.push(repos@[i as int]->Id_0@));
                }
            },
            _ => {},
        }
        i = i + 1;
    }
    proof {
        assert(repos@.take(repos@.len() as int) =~= repos@);
    }
    out
}

} // verus!
