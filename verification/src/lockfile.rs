//! The lock file: the resolved package set a build installs, and the
//! decisions taken over it — compatibility with the manifest, update
//! reporting, and which packages need signature checks.

use crate::config::{string_views, Config};
use vstd::prelude::*;
use vstd::string::StringExecFns;
use vstd::string::StrSliceExecFns;

verus! {

/// A package the user supplied locally.  Its version is not recorded, so
/// local packages can change version without invalidating the lock file.
pub struct LocalPackage {
    /// The package name.
    pub name: String,
    /// What the package requires.
    pub requires: Vec<String>,
}

/// A checksum algorithm RPM supports.
#[derive(Debug, Clone, Copy, PartialEq, Eq, Structural)]
pub enum Algorithm {
    /// MD5.
    Md5,
    /// SHA-1.
    Sha1,
    /// SHA-256.
    Sha256,
    /// SHA-384.
    Sha384,
    /// SHA-512.
    Sha512,
}

/// The checksum of a resolved package.
pub struct Checksum {
    /// The checksum algorithm.
    pub algorithm: Algorithm,
    /// The checksum value.
    pub checksum: String,
}

/// A resolved remote package.
pub struct Package {
    /// The package name.
    pub name: String,
    /// The package epoch-version-release.
    pub evr: String,
    /// The package checksum.
    pub checksum: Checksum,
    /// The id of the package's repository.
    pub repoid: String,
}

/// GPG key configuration for one repository.
pub struct RepoKeyInfo {
    /// Whether GPG checking is enabled for the repository.
    pub gpgcheck: bool,
    /// The keys the repository configuration supplies.
    pub keys: Vec<String>,
}

/// A lock file: the package specs it was resolved from, the resolved
/// packages, the local packages, and the GPG configuration.
pub struct Lockfile {
    /// The package specs the resolution was asked for.
    pub pkg_specs: Vec<String>,
    /// The resolved remote packages.
    pub packages: Vec<Package>,
    /// The local packages.
    pub local_packages: Vec<LocalPackage>,
    /// GPG key configuration by repository id.
    pub repo_gpg_config: Vec<(String, RepoKeyInfo)>,
    /// The key specs the resolution was asked for.
    pub global_key_specs: Vec<String>,
}

/// Whether two string lists hold the same texts in the same order.
fn str_vecs_eq(a: &Vec<String>, b: &Vec<String>) -> (r: bool)
    ensures
        r == (string_views(a@) == string_views(b@)),
{
    if a.len() != b.len() {
        proof {
            assert(string_views(a@).len() != string_views(b@).len());
        }
        return false;
    }
    let mut i: usize = 0;
    while i < a.len()
        invariant
            a@.len() == b@.len(),
            i <= a@.len(),
            forall|j: int| 0 <= j < i ==> #[trigger] a@[j]@ == b@[j]@,
        decreases a@.len() - i,
    {
        if !a[i].eq(&b[i]) {
            proof {
                assert(string_views(a@)[i as int] != string_views(b@)[i as int]);
            }
            return false;
        }
        i = i + 1;
    }
    proof {
        assert(string_views(a@) =~= string_views(b@));
    }
    true
}

/// How often a text occurs in a string list.
pub open spec fn str_count(ss: Seq<String>, x: Seq<char>) -> int
    decreases ss.len(),
{
    if ss.len() == 0 {
        0
    } else {
        str_count(ss.drop_last(), x) + (if ss.last()@ == x {
            1int
        } else {
            0int
        })
    }
}

/// Whether two string lists hold the same texts with the same
/// multiplicities, in any order.
pub open spec fn same_str_multiset(a: Seq<String>, b: Seq<String>) -> bool {
    &&& a.len() == b.len()
    &&& (forall|i: int|
        0 <= i < a.len() ==> str_count(a, #[trigger] a[i]@) == str_count(b, a[i]@))
}

/// How often the text occurs in the list.
fn count_str(ss: &Vec<String>, x: &String) -> (r: usize)
    ensures
        r as int == str_count(ss@, x@),
{
    let mut i: usize = 0;
    let mut c: usize = 0;
    proof {
        assert(str_count(ss@.take(0), x@) == 0) by {
            assert(ss@.take(0) =~= Seq::<String>::empty());
        }
    }
    while i < ss.len()
        invariant
            i <= ss@.len(),
            c as int == str_count(ss@.take(i as int), x@),
            c <= i,
        decreases ss@.len() - i,
    {
        proof {
            assert(ss@.take(i + 1).drop_last() =~= ss@.take(i as int));
            assert(ss@.take(i + 1).last() == ss@[i as int]);
        }
        if ss[i].eq(x) {
            c = c + 1;
        }
        i = i + 1;
    }
    proof {
        assert(ss@.take(ss@.len() as int) =~= ss@);
    }
    c
}

/// Whether two string lists agree as multisets.
fn same_elements(a: &Vec<String>, b: &Vec<String>) -> (r: bool)
    ensures
        r == same_str_multiset(a@, b@),
{
    if a.len() != b.len() {
        return false;
    }
    let mut i: usize = 0;
    while i < a.len()
        invariant
            a@.len() == b@.len(),
            i <= a@.len(),
            forall|j: int| 0 <= j < i ==> str_count(a@, #[trigger] a@[j]@) == str_count(b@, a@[j]@),
        decreases a@.len() - i,
    {
        let ca = count_str(a, &a[i]);
        let cb = count_str(b, &a[i]);
        if ca != cb {
            return false;
        }
        i = i + 1;
    }
    true
}

/// Whether a spec names a local RPM file.
pub open spec fn ends_rpm(s: Seq<char>) -> bool {
    s.len() >= 4 && s.subrange(s.len() - 4, s.len() as int) == ".rpm"@
}

/// Whether the spec names a local RPM file.
pub fn spec_is_local(s: &String) -> (r: bool)
    ensures
        r == ends_rpm(s@),
{
    let st = s.as_str();
    let n = st.unicode_len();
    if n < 4 {
        return false;
    }
    proof {
        reveal_strlit(".rpm");
    }
    let r = st.get_char(n - 4) == '.' && st.get_char(n - 3) == 'r' && st.get_char(n - 2) == 'p'
        && st.get_char(n - 1) == 'm';
    proof {
        if r {
            assert(s@.subrange(s@.len() - 4, s@.len() as int) =~= ".rpm"@);
        } else {
            assert(s@.subrange(s@.len() - 4, s@.len() as int) != ".rpm"@) by {
                assert(".rpm"@.len() == 4);
                if s@.subrange(s@.len() - 4, s@.len() as int) == ".rpm"@ {
                    assert(s@.subrange(s@.len() - 4, s@.len() as int)[0] == s@[s@.len() - 4]);
                    assert(s@.subrange(s@.len() - 4, s@.len() as int)[1] == s@[s@.len() - 3]);
                    assert(s@.subrange(s@.len() - 4, s@.len() as int)[2] == s@[s@.len() - 2]);
                    assert(s@.subrange(s@.len() - 4, s@.len() as int)[3] == s@[s@.len() - 1]);
                }
            }
        }
    }
    r
}

/// The specs that name local RPM files, in order.
pub open spec fn local_specs_spec(specs: Seq<String>) -> Seq<Seq<char>>
    decreases specs.len(),
{
    if specs.len() == 0 {
        Seq::<Seq<char>>::empty()
    } else if ends_rpm(specs.last()@) {
        local_specs_spec(specs.drop_last()).push(specs.last()@)
    } else {
        local_specs_spec(specs.drop_last())
    }
}

/// The specs that do not name local RPM files, in order.
pub open spec fn remote_specs_spec(specs: Seq<String>) -> Seq<Seq<char>>
    decreases specs.len(),
{
    if specs.len() == 0 {
        Seq::<Seq<char>>::empty()
    } else if ends_rpm(specs.last()@) {
        remote_specs_spec(specs.drop_last())
    } else {
        remote_specs_spec(specs.drop_last()).push(specs.last()@)
    }
}

/// The package specs that name local RPM files: what a local-only
/// resolution is asked for.
pub fn local_specs(specs: &Vec<String>) -> (r: Vec<String>)
    ensures
        string_views(r@) == local_specs_spec(specs@),
{
    let mut out: Vec<String> = Vec::new();
    let mut i: usize = 0;
    proof {
        assert(string_views(out@) =~= local_specs_spec(specs@.take(0))) by {
            assert(specs@.take(0) =~= Seq::<String>::empty());
        }
    }
    while i < specs.len()
        invariant
            i <= specs@.len(),
            string_views(out@) == local_specs_spec(specs@.take(i as int)),
        decreases specs@.len() - i,
    {
        let ghost prev = string_views(out@);
        proof {
            assert(specs@.take(i + 1).drop_last() =~= specs@.take(i as int));
            assert(specs@.take(i + 1).last() == specs@[i as int]);
        }
        if spec_is_local(&specs[i]) {
            out.push(specs[i].clone());
            proof {
                assert(string_views(out@) =~= prev.push(specs@[i as int]@));
            }
        }
        i = i + 1;
    }
    proof {
        assert(specs@.take(specs@.len() as int) =~= specs@);
    }
    out
}

/// The requires of every local package, flattened in order.
pub open spec fn flat_requires(lps: Seq<LocalPackage>) -> Seq<Seq<char>>
    decreases lps.len(),
{
    if lps.len() == 0 {
        Seq::<Seq<char>>::empty()
    } else {
        flat_requires(lps.drop_last()) + string_views(lps.last().requires@)
    }
}

/// Whether the recorded local packages still account for one found local
/// dependency: some recorded package bears its name, and every recorded
/// package bearing its name requires the same things, as a multiset.
pub open spec fn dep_recorded(lps: Seq<LocalPackage>, dep: LocalPackage) -> bool {
    &&& (exists|y: int| 0 <= y < lps.len() && (#[trigger] lps[y]).name@ == dep.name@)
    &&& (forall|y: int|
        0 <= y < lps.len() && (#[trigger] lps[y]).name@ == dep.name@ ==> same_str_multiset(
            lps[y].requires@,
            dep.requires@,
        ))
}

impl Lockfile {
    /// Whether the lock file matches the manifest: it was resolved from
    /// the same package specs and the same key specs.
    pub fn is_compatible(&self, cfg: &Config) -> (r: bool)
        ensures
            r == (string_views(self.pkg_specs@) == string_views(cfg.contents.packages@)
                && string_views(self.global_key_specs@) == string_views(cfg.contents.gpgkeys@)),
    {
        let specs_ok = str_vecs_eq(&self.pkg_specs, &cfg.contents.packages);
        let keys_ok = str_vecs_eq(&self.global_key_specs, &cfg.contents.gpgkeys);
        specs_ok && keys_ok
    }

    /// Whether the lock file matches the manifest and every local package
    /// found on disk still has a recorded counterpart with the same
    /// requires, compared as multisets: the resolver reports requires in
    /// another order than the lock file records them.
    pub fn all_local_deps_compatible(&self, cfg: &Config, local_deps: &Vec<LocalPackage>) -> (r:
        bool)
        ensures
            r == (string_views(self.pkg_specs@) == string_views(cfg.contents.packages@)
                && string_views(self.global_key_specs@) == string_views(cfg.contents.gpgkeys@) && (
            forall|x: int|
                0 <= x < local_deps@.len() ==> dep_recorded(
                    self.local_packages@,
                    #[trigger] local_deps@[x],
                ))),
    {
        if !self.is_compatible(cfg) {
            return false;
        }
        let mut x: usize = 0;
        while x < local_deps.len()
            invariant
                x <= local_deps@.len(),
                forall|j: int|
                    0 <= j < x ==> dep_recorded(self.local_packages@, #[trigger] local_deps@[j]),
            decreases local_deps@.len() - x,
        {
            let mut found = false;
            let mut y: usize = 0;
            while y < self.local_packages.len()
                invariant
                    x < local_deps@.len(),
                    y <= self.local_packages@.len(),
                    found == exists|z: int|
                        0 <= z < y && (#[trigger] self.local_packages@[z]).name@
                            == local_deps@[x as int].name@,
                    forall|z: int|
                        0 <= z < y && (#[trigger] self.local_packages@[z]).name@
                            == local_deps@[x as int].name@ ==> same_str_multiset(
                            self.local_packages@[z].requires@,
                            local_deps@[x as int].requires@,
                        ),
                decreases self.local_packages@.len() - y,
            {
                if self.local_packages[y].name.eq(&local_deps[x].name) {
                    if !same_elements(&self.local_packages[y].requires, &local_deps[x].requires) {
                        proof {
                            assert(!dep_recorded(self.local_packages@, local_deps@[x as int]));
                        }
                        return false;
                    }
                    found = true;
                }
                y = y + 1;
            }
            if !found {
                proof {
                    assert(!dep_recorded(self.local_packages@, local_deps@[x as int]));
                }
                return false;
            }
            proof {
                assert(dep_recorded(self.local_packages@, local_deps@[x as int]));
            }
            x = x + 1;
        }
        true
    }

    /// The download list: each resolved package's name, version and
    /// checksum value, in order.
    pub fn download_list(&self) -> (r: Vec<(String, String, String)>)
        ensures
            r@.len() == self.packages@.len(),
            forall|i: int|
                0 <= i < r@.len() ==> (#[trigger] r@[i]).0@ == self.packages@[i].name@ && r@[i].1@
                    == self.packages@[i].evr@ && r@[i].2@ == self.packages@[i].checksum.checksum@,
    {
        let mut out: Vec<(String, String, String)> = Vec::new();
        let mut i: usize = 0;
        while i < self.packages.len()
            invariant
                i <= self.packages@.len(),
                out@.len() == i,
                forall|j: int|
                    0 <= j < i ==> (#[trigger] out@[j]).0@ == self.packages@[j].name@ && out@[j].1@
                        == self.packages@[j].evr@ && out@[j].2@
                        == self.packages@[j].checksum.checksum@,
            decreases self.packages@.len() - i,
        {
            out.push(
                (
                    self.packages[i].name.clone(),
                    self.packages[i].evr.clone(),
                    self.packages[i].checksum.checksum.clone(),
                ),
            );
            i = i + 1;
        }
        out
    }

    /// Whether the repository the id names has GPG checking enabled; the
    /// first configuration entry for the id decides.
    pub open spec fn repo_gpgcheck(cfgs: Seq<(String, RepoKeyInfo)>, repoid: Seq<char>) -> bool
        decreases cfgs.len(),
    {
        if cfgs.len() == 0 {
            false
        } else if cfgs[0].0@ == repoid {
            cfgs[0].1.gpgcheck
        } else {
            Self::repo_gpgcheck(cfgs.drop_first(), repoid)
        }
    }

    /// The names of the resolved packages whose repository has GPG
    /// checking enabled: exactly those need their signatures verified.
    pub fn gpgcheck_package_names(&self) -> (r: Vec<String>)
        ensures
            string_views(r@) == Self::gpgcheck_names_spec(
                self.packages@,
                self.repo_gpg_config@,
            ),
    {
        let mut out: Vec<String> = Vec::new();
        let mut i: usize = 0;
        proof {
            assert(string_views(out@) =~= Self::gpgcheck_names_spec(
                self.packages@.take(0),
                self.repo_gpg_config@,
            )) by {
                assert(self.packages@.take(0) =~= Seq::<Package>::empty());
            }
        }
        while i < self.packages.len()
            invariant
                i <= self.packages@.len(),
                string_views(out@) == Self::gpgcheck_names_spec(
                    self.packages@.take(i as int),
                    self.repo_gpg_config@,
                ),
            decreases self.packages@.len() - i,
        {
            let ghost prev = string_views(out@);
            proof {
                assert(self.packages@.take(i + 1).drop_last() =~= self.packages@.take(i as int));
                assert(self.packages@.take(i + 1).last() == self.packages@[i as int]);
            }
            if self.repo_has_gpgcheck(&self.packages[i].repoid) {
                out.push(self.packages[i].name.clone());
                proof {
                    assert(string_views(out@) =~= prev.push(self.packages@[i as int].name@));
                }
            }
            i = i + 1;
        }
        proof {
            assert(self.packages@.take(self.packages@.len() as int) =~= self.packages@);
        }
        out
    }

    /// The names of packages needing signature checks, in order.
    pub open spec fn gpgcheck_names_spec(
        pkgs: Seq<Package>,
        cfgs: Seq<(String, RepoKeyInfo)>,
    ) -> Seq<Seq<char>>
        decreases pkgs.len(),
    {
        if pkgs.len() == 0 {
            Seq::<Seq<char>>::empty()
        } else if Self::repo_gpgcheck(cfgs, pkgs.last().repoid@) {
            Self::gpgcheck_names_spec(pkgs.drop_last(), cfgs).push(pkgs.last().name@)
        } else {
            Self::gpgcheck_names_spec(pkgs.drop_last(), cfgs)
        }
    }

    /// Whether the repository the id names has GPG checking enabled.
    fn repo_has_gpgcheck(&self, repoid: &String) -> (r: bool)
        ensures
            r == Self::repo_gpgcheck(self.repo_gpg_config@, repoid@),
    {
        let n = self.repo_gpg_config.len();
        let mut i: usize = 0;
        proof {
            assert(self.repo_gpg_config@.skip(0) =~= self.repo_gpg_config@);
        }
        while i < n
            invariant
                n == self.repo_gpg_config@.len(),
                i <= n,
                Self::repo_gpgcheck(self.repo_gpg_config@, repoid@) == Self::repo_gpgcheck(
                    self.repo_gpg_config@.skip(i as int),
                    repoid@,
                ),
            decreases n - i,
        {
            proof {
                assert(self.repo_gpg_config@.skip(i as int)[0] == self.repo_gpg_config@[i as int]);
                assert(self.repo_gpg_config@.skip(i as int).drop_first()
                    =~= self.repo_gpg_config@.skip(i + 1));
            }
            if self.repo_gpg_config[i].0.eq(repoid) {
                return self.repo_gpg_config[i].1.gpgcheck;
            }
            i = i + 1;
        }
        proof {
            assert(self.repo_gpg_config@.skip(n as int) =~= Seq::<(String, RepoKeyInfo)>::empty());
        }
        false
    }

    /// The specs a resolution from the previous lock file is asked for:
    /// the manifest's remote specs, then every local package's requires.
    pub fn previous_update_specs(&self, cfg_packages: &Vec<String>) -> (r: Vec<String>)
        ensures
            string_views(r@) == remote_specs_spec(cfg_packages@) + flat_requires(
                self.local_packages@,
            ),
    {
        let mut out: Vec<String> = Vec::new();
        let mut i: usize = 0;
        proof {
            assert(string_views(out@) =~= remote_specs_spec(cfg_packages@.take(0))) by {
                assert(cfg_packages@.take(0) =~= Seq::<String>::empty());
            }
        }
        while i < cfg_packages.len()
            invariant
                i <= cfg_packages@.len(),
                string_views(out@) == remote_specs_spec(cfg_packages@.take(i as int)),
            decreases cfg_packages@.len() - i,
        {
            let ghost prev = string_views(out@);
            proof {
                assert(cfg_packages@.take(i + 1).drop_last() =~= cfg_packages@.take(i as int));
                assert(cfg_packages@.take(i + 1).last() == cfg_packages@[i as int]);
            }
            if !spec_is_local(&cfg_packages[i]) {
                out.push(cfg_packages[i].clone());
                proof {
                    assert(string_views(out@) =~= prev.push(cfg_packages@[i as int]@));
                }
            }
            i = i + 1;
        }
        proof {
            assert(cfg_packages@.take(cfg_packages@.len() as int) =~= cfg_packages@);
        }
        let ghost head = string_views(out@);
        let mut p: usize = 0;
        proof {
            assert(flat_requires(self.local_packages@.take(0)) =~= Seq::<Seq<char>>::empty()) by {
                assert(self.local_packages@.take(0) =~= Seq::<LocalPackage>::empty());
            }
            assert(string_views(out@) =~= head + flat_requires(self.local_packages@.take(0)));
        }
        while p < self.local_packages.len()
            invariant
                p <= self.local_packages@.len(),
                string_views(out@) == head + flat_requires(self.local_packages@.take(p as int)),
            decreases self.local_packages@.len() - p,
        {
            let reqs = &self.local_packages[p].requires;
            let mut q: usize = 0;
            while q < reqs.len()
                invariant
                    p < self.local_packages@.len(),
                    q <= reqs@.len(),
                    reqs == &self.local_packages@[p as int].requires,
                    string_views(out@) == head + flat_requires(self.local_packages@.take(p as int))
                        + string_views(reqs@.take(q as int)),
                decreases reqs@.len() - q,
            {
                let ghost prev = string_views(out@);
                out.push(reqs[q].clone());
                proof {
                    assert(string_views(out@) =~= prev.push(reqs@[q as int]@));
                    assert(string_views(reqs@.take(q + 1)) =~= string_views(
                        reqs@.take(q as int),
                    ).push(reqs@[q as int]@));
                    assert(string_views(out@) =~= head + flat_requires(
                        self.local_packages@.take(p as int),
                    ) + string_views(reqs@.take(q + 1)));
                }
                q = q + 1;
            }
            proof {
                assert(reqs@.take(reqs@.len() as int) =~= reqs@);
                assert(self.local_packages@.take(p + 1).drop_last() =~= self.local_packages@.take(
                    p as int,
                ));
                assert(self.local_packages@.take(p + 1).last()
                    == self.local_packages@[p as int]);
                assert(string_views(out@) =~= head + flat_requires(
                    self.local_packages@.take(p + 1),
                ));
            }
            p = p + 1;
        }
        proof {
            assert(self.local_packages@.take(self.local_packages@.len() as int)
                =~= self.local_packages@);
        }
        out
    }
}


/// The changes from a previous package list to a new one.
pub struct PackageDiff {
    /// Packages present in both whose version changed: name, previous
    /// version, new version, in the previous list's order.
    pub updates: Vec<(String, String, String)>,
    /// Packages only the previous list holds: name and version, in its
    /// order.
    pub removals: Vec<(String, String)>,
    /// Packages only the new list holds: name and version, in its order.
    pub additions: Vec<(String, String)>,
}

/// The updated packages: previous entries whose name the new list also
/// records, under a different version.
pub open spec fn updates_spec(
    new: Seq<(String, String)>,
    old: Seq<(String, String)>,
) -> Seq<(Seq<char>, Seq<char>, Seq<char>)>
    decreases old.len(),
{
    if old.len() == 0 {
        Seq::<(Seq<char>, Seq<char>, Seq<char>)>::empty()
    } else {
        updates_spec(new, old.drop_last()) + (match crate::config::assoc_find(
            new,
            old.last().0@,
        ) {
            Some(nv) => if nv != old.last().1@ {
                seq![(old.last().0@, old.last().1@, nv)]
            } else {
                Seq::<(Seq<char>, Seq<char>, Seq<char>)>::empty()
            },
            None => Seq::<(Seq<char>, Seq<char>, Seq<char>)>::empty(),
        })
    }
}

/// The removed packages: previous entries whose name the new list does
/// not record.
pub open spec fn removals_spec(
    new: Seq<(String, String)>,
    old: Seq<(String, String)>,
) -> Seq<(Seq<char>, Seq<char>)>
    decreases old.len(),
{
    if old.len() == 0 {
        Seq::<(Seq<char>, Seq<char>)>::empty()
    } else if crate::config::assoc_find(new, old.last().0@) is None {
        removals_spec(new, old.drop_last()).push((old.last().0@, old.last().1@))
    } else {
        removals_spec(new, old.drop_last())
    }
}

/// The added packages: new entries whose name the previous list does not
/// record.
pub open spec fn additions_spec(
    new: Seq<(String, String)>,
    old: Seq<(String, String)>,
) -> Seq<(Seq<char>, Seq<char>)>
    decreases new.len(),
{
    if new.len() == 0 {
        Seq::<(Seq<char>, Seq<char>)>::empty()
    } else if crate::config::assoc_find(old, new.last().0@) is None {
        additions_spec(new.drop_last(), old).push((new.last().0@, new.last().1@))
    } else {
        additions_spec(new.drop_last(), old)
    }
}

/// The view of an update triple list.
pub open spec fn triple_views(ts: Seq<(String, String, String)>) -> Seq<
    (Seq<char>, Seq<char>, Seq<char>),
> {
    ts.map(|i: int, t: (String, String, String)| (t.0@, t.1@, t.2@))
}

/// What changed between a previous package list and a new one, each list
/// naming packages with their versions; the first entry for a name
/// decides.
pub fn diff_packages(new: &Vec<(String, String)>, old: &Vec<(String, String)>) -> (r: PackageDiff)
    ensures
        triple_views(r.updates@) == updates_spec(new@, old@),
        crate::config::pair_views(r.removals@) == removals_spec(new@, old@),
        crate::config::pair_views(r.additions@) == additions_spec(new@, old@),
{
    let mut updates: Vec<(String, String, String)> = Vec::new();
    let mut removals: Vec<(String, String)> = Vec::new();
    let mut i: usize = 0;
    proof {
        assert(old@.take(0) =~= Seq::<(String, String)>::empty());
        assert(triple_views(updates@) =~= updates_spec(new@, old@.take(0)));
        assert(crate::config::pair_views(removals@) =~= removals_spec(new@, old@.take(0)));
    }
    while i < old.len()
        invariant
            i <= old@.len(),
            triple_views(updates@) == updates_spec(new@, old@.take(i as int)),
            crate::config::pair_views(removals@) == removals_spec(new@, old@.take(i as int)),
        decreases old@.len() - i,
    {
        proof {
            assert(old@.take(i + 1).drop_last() =~= old@.take(i as int));
            assert(old@.take(i + 1).last() == old@[i as int]);
        }
        let ghost up_prev = triple_views(updates@);
        let ghost rm_prev = crate::config::pair_views(removals@);
        match crate::config::assoc_get(new, &old[i].0) {
            Option::Some(nv) => {
                if !nv.eq(&old[i].1) {
                    let ghost gnv = nv@;
                    updates.push((old[i].0.clone(), old[i].1.clone(), nv));
                    proof {
                        assert(triple_views(updates@) =~= up_prev.push(
                            (old@[i as int].0@, old@[i as int].1@, gnv),
                        ));
                    }
                }
            },
            Option::None => {
                removals.push((old[i].0.clone(), old[i].1.clone()));
                proof {
                    assert(crate::config::pair_views(removals@) =~= rm_prev.push(
                        (old@[i as int].0@, old@[i as int].1@),
                    ));
                }
            },
        }
        i = i + 1;
    }
    proof {
        assert(old@.take(old@.len() as int) =~= old@);
    }
    let mut additions: Vec<(String, String)> = Vec::new();
    let mut j: usize = 0;
    proof {
        assert(new@.take(0) =~= Seq::<(String, String)>::empty());
        assert(crate::config::pair_views(additions@) =~= additions_spec(new@.take(0), old@));
    }
    while j < new.len()
        invariant
            j <= new@.len(),
            crate::config::pair_views(additions@) == additions_spec(new@.take(j as int), old@),
        decreases new@.len() - j,
    {
        proof {
            assert(new@.take(j + 1).drop_last() =~= new@.take(j as int));
            assert(new@.take(j + 1).last() == new@[j as int]);
        }
        let ghost ad_prev = crate::config::pair_views(additions@);
        match crate::config::assoc_get(old, &new[j].0) {
            Option::Some(_) => {},
            Option::None => {
                additions.push((new[j].0.clone(), new[j].1.clone()));
                proof {
                    assert(crate::config::pair_views(additions@) =~= ad_prev.push(
                        (new@[j as int].0@, new@[j as int].1@),
                    ));
                }
            },
        }
        j = j + 1;
    }
    proof {
        assert(new@.take(new@.len() as int) =~= new@);
    }
    PackageDiff { updates, removals, additions }
}

impl Lockfile {
    /// The resolved packages as name and version pairs, in order.
    pub fn name_evr_pairs(&self) -> (r: Vec<(String, String)>)
        ensures
            r@.len() == self.packages@.len(),
            forall|i: int|
                0 <= i < r@.len() ==> (#[trigger] r@[i]).0@ == self.packages@[i].name@ && r@[i].1@
                    == self.packages@[i].evr@,
    {
        let mut out: Vec<(String, String)> = Vec::new();
        let mut i: usize = 0;
        while i < self.packages.len()
            invariant
                i <= self.packages@.len(),
                out@.len() == i,
                forall|j: int|
                    0 <= j < i ==> (#[trigger] out@[j]).0@ == self.packages@[j].name@ && out@[j].1@
                        == self.packages@[j].evr@,
            decreases self.packages@.len() - i,
        {
            out.push((self.packages[i].name.clone(), self.packages[i].evr.clone()));
            i = i + 1;
        }
        out
    }
}

} // verus!
