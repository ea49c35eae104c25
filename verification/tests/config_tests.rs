//! Behavior of configuration handling: environment defaulting, label
//! merging, label argument parsing, repository ids and dnf keyword
//! arguments, and lock-file decisions.

use rpmoci::cli::label_parser;
use rpmoci::config::{
    repo_kwargs, Config, ImageConfig, KwValue, PackageConfig, Repository, RepositoryDefinition,
};
use rpmoci::lockfile::{
    diff_packages, local_specs, Algorithm, Checksum, LocalPackage, Lockfile, Package, RepoKeyInfo,
};

fn image_config(
    envs: Vec<(String, String)>,
    labels: Vec<(String, String)>,
) -> ImageConfig {
    ImageConfig {
        user: None,
        exposed_ports: Vec::new(),
        envs,
        entrypoint: Vec::new(),
        cmd: Vec::new(),
        volumes: Vec::new(),
        labels,
        workingdir: None,
        stopsignal: None,
        author: None,
    }
}

#[test]
fn path_env_defaulting() {
    let with_path = image_config(
        vec![("PATH".to_string(), "/usr/bin".to_string())],
        Vec::new(),
    );
    let (run, _) = with_path.to_run_config(&Vec::new());
    assert!(run.env.iter().any(|e| e == "PATH=/usr/bin"));
    assert_eq!(run.env.len(), 1);

    let without_path = image_config(
        vec![("FOO".to_string(), "bar".to_string())],
        Vec::new(),
    );
    let (run, _) = without_path.to_run_config(&Vec::new());
    assert!(run
        .env
        .iter()
        .any(|e| e == "PATH=/usr/local/bin:/usr/local/sbin:/usr/bin:/usr/sbin:/bin:/sbin"));
    assert_eq!(run.env.len(), 2);
}

#[test]
fn label_merging() {
    let cfg = image_config(
        Vec::new(),
        vec![("foo.bar".to_string(), "baz".to_string())],
    );
    let (run, _) = cfg.to_run_config(&Vec::new());
    assert_eq!(run.labels.len(), 1);
    assert_eq!(run.labels[0], ("foo.bar".to_string(), "baz".to_string()));

    let cfg = image_config(
        Vec::new(),
        vec![("foo.bar".to_string(), "baz".to_string())],
    );
    let extra = vec![
        ("foo.bar".to_string(), "qux".to_string()),
        ("foo.baz".to_string(), "quux".to_string()),
    ];
    let (run, _) = cfg.to_run_config(&extra);
    assert_eq!(run.labels.len(), 2);
    assert_eq!(run.labels[0], ("foo.bar".to_string(), "qux".to_string()));
    assert_eq!(run.labels[1], ("foo.baz".to_string(), "quux".to_string()));
}

#[test]
fn label_parser_splits_at_first_equals() {
    assert_eq!(
        label_parser("key=value"),
        Ok(("key".to_string(), "value".to_string()))
    );
    assert_eq!(
        label_parser("a=b=c"),
        Ok(("a".to_string(), "b=c".to_string()))
    );
    assert_eq!(
        label_parser("noequals"),
        Err("`noequals` should be of the form KEY=VALUE.".to_string())
    );
}

#[test]
fn repo_id_variants() {
    assert_eq!(Repository::Id("foo-base".to_string()).repo_id(), "foo-base");
    let with_id = Repository::Definition(RepositoryDefinition {
        id: Some("foo".to_string()),
        url: "https://foo/bar".to_string(),
        options: Vec::new(),
    });
    assert_eq!(with_id.repo_id(), "foo");
    let by_url = Repository::Url(
        "https://packages.microsoft.com/cbl-mariner/2.0/prod/base/x86_64".to_string(),
    );
    assert_eq!(
        by_url.repo_id(),
        "packages.microsoft.com_cbl-mariner_2.0_prod_base_x86_64"
    );
}

#[test]
fn repo_kwargs_defaults_and_gpgkey_merge() {
    let gpgkeys = vec!["https://k/one".to_string(), "https://k/two".to_string()];
    let kwargs = repo_kwargs(
        &"https://repo".to_string(),
        &Vec::new(),
        &gpgkeys,
        None,
        None,
    );
    assert_eq!(kwargs.len(), 4);
    assert_eq!(kwargs[0].0, "baseurl");
    match &kwargs[0].1 {
        KwValue::List(l) => assert_eq!(l, &vec!["https://repo".to_string()]),
        _ => panic!("baseurl should be a list"),
    }
    assert_eq!(kwargs[1].0, "gpgcheck");
    match &kwargs[1].1 {
        KwValue::Str(v) => assert_eq!(v, "True"),
        _ => panic!("gpgcheck should be a string"),
    }
    assert_eq!(kwargs[2].0, "sslverify");
    assert_eq!(kwargs[3].0, "gpgkey");
    match &kwargs[3].1 {
        KwValue::Str(v) => assert_eq!(v, "https://k/one https://k/two"),
        _ => panic!("gpgkey should be a string"),
    }

    let options = vec![("gpgkey".to_string(), "https://local".to_string())];
    let kwargs = repo_kwargs(
        &"https://repo".to_string(),
        &options,
        &gpgkeys,
        Some("user".to_string()),
        None,
    );
    assert_eq!(kwargs.len(), 5);
    assert_eq!(kwargs[1].0, "gpgkey");
    match &kwargs[1].1 {
        KwValue::Str(v) => assert_eq!(v, "https://local https://k/one https://k/two"),
        _ => panic!("gpgkey should be a string"),
    }
    assert_eq!(kwargs[4].0, "username");
}

fn config_with(packages: Vec<String>, gpgkeys: Vec<String>) -> Config {
    Config {
        contents: PackageConfig {
            repositories: Vec::new(),
            packages,
            gpgkeys,
            docs: false,
            os_release: true,
        },
        image: image_config(Vec::new(), Vec::new()),
    }
}

fn lockfile_with(pkg_specs: Vec<String>, local: Vec<LocalPackage>) -> Lockfile {
    Lockfile {
        pkg_specs,
        packages: Vec::new(),
        local_packages: local,
        repo_gpg_config: Vec::new(),
        global_key_specs: Vec::new(),
    }
}

#[test]
fn lockfile_compatibility() {
    let lock = lockfile_with(vec!["bash".to_string()], Vec::new());
    assert!(lock.is_compatible(&config_with(vec!["bash".to_string()], Vec::new())));
    assert!(!lock.is_compatible(&config_with(vec!["zsh".to_string()], Vec::new())));
    assert!(!lock.is_compatible(&config_with(
        vec!["bash".to_string()],
        vec!["https://key".to_string()]
    )));
}

#[test]
fn local_deps_compared_as_multisets() {
    let lock = lockfile_with(
        Vec::new(),
        vec![LocalPackage {
            name: "mine".to_string(),
            requires: vec!["a".to_string(), "b".to_string()],
        }],
    );
    let cfg = config_with(Vec::new(), Vec::new());
    let reordered = vec![LocalPackage {
        name: "mine".to_string(),
        requires: vec!["b".to_string(), "a".to_string()],
    }];
    assert!(lock.all_local_deps_compatible(&cfg, &reordered));
    let changed = vec![LocalPackage {
        name: "mine".to_string(),
        requires: vec!["b".to_string(), "c".to_string()],
    }];
    assert!(!lock.all_local_deps_compatible(&cfg, &changed));
    let unknown = vec![LocalPackage {
        name: "other".to_string(),
        requires: Vec::new(),
    }];
    assert!(!lock.all_local_deps_compatible(&cfg, &unknown));
}

#[test]
fn local_specs_filters_rpm_paths() {
    let specs = vec![
        "skopeo-1.9.*".to_string(),
        "target/generate-rpm/rpmoci-1.rpm".to_string(),
        "core-packages-container".to_string(),
    ];
    let locals = local_specs(&specs);
    assert_eq!(locals, vec!["target/generate-rpm/rpmoci-1.rpm".to_string()]);
}

#[test]
fn previous_update_specs_collects_requires() {
    let lock = lockfile_with(
        Vec::new(),
        vec![LocalPackage {
            name: "mine".to_string(),
            requires: vec!["glibc".to_string()],
        }],
    );
    let specs = lock.previous_update_specs(&vec![
        "bash".to_string(),
        "local/pkg.rpm".to_string(),
    ]);
    assert_eq!(specs, vec!["bash".to_string(), "glibc".to_string()]);
}

#[test]
fn diff_packages_reports_changes() {
    let old = vec![
        ("etcd".to_string(), "3.5.1-1.cm2".to_string()),
        ("filesystem".to_string(), "1.1-9.cm2".to_string()),
        ("dropped".to_string(), "1.0-1".to_string()),
    ];
    let new = vec![
        ("etcd".to_string(), "3.5.2-1.cm2".to_string()),
        ("filesystem".to_string(), "1.1-9.cm2".to_string()),
        ("tini-static".to_string(), "0.19.0-7.cm2".to_string()),
    ];
    let diff = diff_packages(&new, &old);
    assert_eq!(
        diff.updates,
        vec![(
            "etcd".to_string(),
            "3.5.1-1.cm2".to_string(),
            "3.5.2-1.cm2".to_string()
        )]
    );
    assert_eq!(diff.removals, vec![("dropped".to_string(), "1.0-1".to_string())]);
    assert_eq!(
        diff.additions,
        vec![("tini-static".to_string(), "0.19.0-7.cm2".to_string())]
    );
}

#[test]
fn gpgcheck_names_follow_repo_config() {
    let lock = Lockfile {
        pkg_specs: Vec::new(),
        packages: vec![
            Package {
                name: "checked".to_string(),
                evr: "1".to_string(),
                checksum: Checksum {
                    algorithm: Algorithm::Sha256,
                    checksum: "aa".to_string(),
                },
                repoid: "secure".to_string(),
            },
            Package {
                name: "unchecked".to_string(),
                evr: "1".to_string(),
                checksum: Checksum {
                    algorithm: Algorithm::Sha256,
                    checksum: "bb".to_string(),
                },
                repoid: "open".to_string(),
            },
        ],
        local_packages: Vec::new(),
        repo_gpg_config: vec![
            (
                "secure".to_string(),
                RepoKeyInfo { gpgcheck: true, keys: vec!["KEY".to_string()] },
            ),
            (
                "open".to_string(),
                RepoKeyInfo { gpgcheck: false, keys: Vec::new() },
            ),
        ],
        global_key_specs: Vec::new(),
    };
    assert_eq!(lock.gpgcheck_package_names(), vec!["checked".to_string()]);
    let downloads = lock.download_list();
    assert_eq!(downloads.len(), 2);
    assert_eq!(
        downloads[0],
        ("checked".to_string(), "1".to_string(), "aa".to_string())
    );
}
