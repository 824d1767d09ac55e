use vstd::prelude::*;
use vstd::string::*;

use crate::labels::LabelMap;
use crate::toleration::Toleration;

verus! {

/// How a policy treats a node-selector label that the pod already sets to another value.
#[derive(Clone, Copy, Debug, PartialEq, Eq, Structural)]
pub enum Conflict {
    /// Keep the pod's value.
    Ignore,
    /// Replace the pod's value with the configured one.
    Override,
    /// Deny the pod.
    Reject,
}

impl Default for Conflict {
    fn default() -> (r: Conflict)
        ensures
            r == Conflict::Reject,
    {
        Conflict::Reject
    }
}

/// The policy of one group of namespaces.
#[derive(Debug)]
pub struct GroupConfig {
    /// Labels that every pod must select, in the order they were configured.
    pub node_selector: Option<LabelMap>,
    /// Affinity rules; carried, not yet applied.
    pub affinity: Option<Vec<String>>,
    /// Tolerations that every pod must have.
    pub tolerations: Option<Vec<Toleration>>,
    pub on_conflict: Conflict,
}

/// The policies, by group name, and the namespace label that names a namespace's group.
#[derive(Debug)]
pub struct Config {
    pub groups: Vec<(String, GroupConfig)>,
    pub group_label: String,
}

/// The first group in `groups` called `name`.
pub open spec fn find_group(groups: Seq<(String, GroupConfig)>, name: Seq<char>) -> Option<
    GroupConfig,
>
    decreases groups.len(),
{
    if groups.len() == 0 {
        None
    } else if groups[0].0@ == name {
        Some(groups[0].1)
    } else {
        find_group(groups.drop_first(), name)
    }
}

impl Config {
    /// No two groups share a name.
    pub open spec fn wf(&self) -> bool {
        forall|i: int, j: int|
            0 <= i < j < self.groups@.len() ==> #[trigger] self.groups@[i].0@
                != #[trigger] self.groups@[j].0@
    }

    /// Whether no two groups share a name.
    pub fn has_unique_names(&self) -> (r: bool)
        ensures
            r == self.wf(),
    {
        let n = self.groups.len();
        let mut j: usize = 0;
        while j < n
            invariant
                n == self.groups@.len(),
                j <= n,
                forall|a: int, b: int|
                    0 <= a < b < j ==> #[trigger] self.groups@[a].0@ != #[trigger] self.groups@[b].0@,
            decreases n - j,
        {
            let mut i: usize = 0;
            while i < j
                invariant
                    n == self.groups@.len(),
                    i <= j < n,
                    forall|a: int| 0 <= a < i ==> #[trigger] self.groups@[a].0@ != self.groups@[j as int].0@,
                decreases j - i,
            {
                if self.groups[i].0 == self.groups[j].0 {
                    return false;
                }
                i = i + 1;
            }
            j = j + 1;
        }
        true
    }

    /// The policy of group `name`, if one is configured.
    pub fn group(&self, name: &String) -> (r: Option<&GroupConfig>)
        ensures
            find_group(self.groups@, name@) == match r {
                Some(g) => Some(*g),
                None => None::<GroupConfig>,
            },
    {
        let mut i: usize = 0;
        assert(self.groups@.skip(0) =~= self.groups@);
        while i < self.groups.len()
            invariant
                i <= self.groups@.len(),
                find_group(self.groups@, name@) == find_group(self.groups@.skip(i as int), name@),
            decreases self.groups.len() - i,
        {
            assert(self.groups@.skip(i as int).drop_first() =~= self.groups@.skip(i + 1));
            if self.groups[i].0 == *name {
                return Some(&self.groups[i].1);
            }
            i = i + 1;
        }
        None
    }
}

/// Loading the listener's certificate and key failed.
#[derive(Debug)]
pub enum ConfigError {
    TlsConfig { source: String, cert_path: String, key_path: String },
}

pub open spec fn tls_config_message(
    source: Seq<char>,
    cert_path: Seq<char>,
    key_path: Seq<char>,
) -> Seq<char> {
    "failed loading certificates (cert: \""@ + cert_path + "\"; and key: \""@ + key_path
        + "\"): "@ + source
}

impl ConfigError {
    /// The message shown for the error.
    pub fn message(&self) -> (r: String)
        ensures
            match self {
                ConfigError::TlsConfig { source, cert_path, key_path } => r@ == tls_config_message(
                    source@,
                    cert_path@,
                    key_path@,
                ),
            },
    {
        match self {
            ConfigError::TlsConfig { source, cert_path, key_path } => {
                String::from_str("failed loading certificates (cert: \"").concat(
                    cert_path.as_str(),
                ).concat("\"; and key: \"").concat(key_path.as_str()).concat("\"): ").concat(
                    source.as_str(),
                )
            },
        }
    }
}

} // verus!
