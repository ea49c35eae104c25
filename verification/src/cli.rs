//! The command surface: what each subcommand carries, and the parser for
//! `KEY=VALUE` label arguments.

use vstd::prelude::*;
use vstd::string::StringExecFns;
use vstd::string::StrSliceExecFns;

verus! {

/// The available subcommands.
pub enum Command {
    /// Update dependencies as recorded in the local lock file.
    Update {
        /// Path to the manifest file.
        manifest_path: String,
        /// Use the existing lock file to update dependencies.
        from_lockfile: bool,
    },
    /// Build an OCI image.
    Build {
        /// Require that the lock file is up to date.
        locked: bool,
        /// Path to the OCI image layout.
        image: String,
        /// Additional labels to apply to the image, as key/value pairs.
        label: Vec<(String, String)>,
        /// The tag to give the image.
        tag: String,
        /// Use RPMs from this directory instead of downloading them.
        vendor_dir: Option<String>,
        /// Path to the manifest file.
        manifest_path: String,
    },
    /// Vendor RPM dependencies locally.
    Vendor {
        /// The directory in which to store downloaded RPMs.
        out_dir: String,
        /// Path to the manifest file.
        manifest_path: String,
    },
}

/// The position of the first `=` in the characters, or their length where
/// there is none.
pub open spec fn first_eq(s: Seq<char>) -> int
    decreases s.len(),
{
    if s.len() == 0 {
        0
    } else if s[0] == '=' {
        0
    } else {
        1 + first_eq(s.drop_first())
    }
}

/// The first `=` position never exceeds the length, and marks an `=`.
pub proof fn lemma_first_eq(s: Seq<char>)
    ensures
        0 <= first_eq(s) <= s.len(),
        first_eq(s) < s.len() ==> s[first_eq(s)] == '=',
        forall|i: int| 0 <= i < first_eq(s) ==> s[i] != '=',
    decreases s.len(),
{
    if s.len() > 0 && s[0] != '=' {
        lemma_first_eq(s.drop_first());
        assert(forall|i: int| 0 < i < s.len() ==> s[i] == s.drop_first()[i - 1]);
    }
}

/// Split a `KEY=VALUE` argument at its first `=`.
///
/// An argument without an `=` is rejected with a message naming it.
pub fn label_parser(s: &str) -> (r: Result<(String, String), String>)
    ensures
        match r {
            Ok(kv) => first_eq(s@) < s@.len() && kv.0@ == s@.take(first_eq(s@)) && kv.1@
                == s@.subrange(first_eq(s@) + 1, s@.len() as int),
            Err(msg) => first_eq(s@) == s@.len() && msg@ == "`"@ + s@
                + "` should be of the form KEY=VALUE."@,
        },
{
    proof {
        lemma_first_eq(s@);
    }
    let n = s.unicode_len();
    let mut i: usize = 0;
    while i < n
        invariant
            n == s@.len(),
            i <= n,
            forall|j: int| 0 <= j < i ==> s@[j] != '=',
        decreases n - i,
    {
        if s.get_char(i) == '=' {
            proof {
                lemma_first_eq_at(s@, i as int);
            }
            let key = String::from_str(s.substring_char(0, i));
            let value = String::from_str(s.substring_char(i + 1, n));
            return Ok((key, value));
        }
        i = i + 1;
    }
    proof {
        lemma_first_eq_at(s@, n as int);
    }
    let mut msg = String::from_str("`");
    msg.append(s);
    msg.append("` should be of the form KEY=VALUE.");
    Err(msg)
}

/// Where no `=` stands before position `e`, and `e` is an `=` or the end,
/// the first `=` is at `e`.
proof fn lemma_first_eq_at(s: Seq<char>, e: int)
    requires
        0 <= e <= s.len(),
        forall|i: int| 0 <= i < e ==> s[i] != '=',
        e < s.len() ==> s[e] == '=',
    ensures
        first_eq(s) == e,
    decreases e,
{
    if e > 0 {
        assert(forall|i: int| 0 < i < s.len() ==> s[i] == s.drop_first()[i - 1]);
        assert(forall|i: int| 0 <= i < e - 1 ==> s.drop_first()[i] != '=');
        lemma_first_eq_at(s.drop_first(), e - 1);
    } else {
        if s.len() > 0 {
            assert(s[0] == '=');
        }
    }
}

} // verus!
