//! The user's settings: where files are staged, and short names for services.

use crate::error::Error;
use crate::strmap::StrMap;
use crate::text;
use vstd::prelude::*;

verus! {

/// The user's settings.
#[derive(Debug)]
pub struct Config {
    /// The S3 bucket that files are staged in.
    pub bucket: Option<String>,
    /// How many seconds a presigned URL is valid.
    pub presign_expiry: Option<u64>,
    /// The cluster where none is named.
    pub cluster: Option<String>,
    /// Short names, each for `cluster/service/container[/task]`.
    pub aliases: StrMap<String>,
    /// Groups of short names.
    pub groups: StrMap<Vec<String>>,
    pub scheduler: Option<SchedulerConfig>,
}

/// The user's settings for schedules.
#[derive(Debug)]
pub struct SchedulerConfig {
    /// The role that schedules run under.
    pub role_arn: Option<String>,
    /// The group that schedules are put in.
    pub group_name: Option<String>,
}

impl Default for Config {
    /// The settings of a user who has made none.
    fn default() -> (r: Config)
        ensures
            r.bucket is None,
            r.presign_expiry is None,
            r.cluster is None,
            r.aliases@ == Map::<Seq<char>, String>::empty(),
            r.groups@ == Map::<Seq<char>, Vec<String>>::empty(),
            r.scheduler is None,
    {
        Config {
            bucket: None,
            presign_expiry: None,
            cluster: None,
            aliases: StrMap::new(),
            groups: StrMap::new(),
            scheduler: None,
        }
    }
}

impl Default for SchedulerConfig {
    /// The settings of a user who has made none.
    fn default() -> (r: SchedulerConfig)
        ensures
            r.role_arn is None,
            r.group_name is None,
    {
        SchedulerConfig { role_arn: None, group_name: None }
    }
}

/// What can be wrong with a name or a setting.
#[derive(Debug, Clone, Copy, PartialEq, Eq, Structural)]
pub enum ConfigProblem {
    AliasNotFound,
    InvalidAlias,
    EmptyGroup,
    NoRoleArn,
    NegativeCount,
    NoTarget,
}

/// A problem and the message that explains it.
pub type Problem = (ConfigProblem, Seq<char>);

/// The complaint about a short name that is not known.
pub open spec fn alias_not_found(alias: Seq<char>) -> Problem {
    (ConfigProblem::AliasNotFound, "alias '"@ + alias + "' not found"@)
}

fn not_found(alias: &str) -> (r: Error<ConfigProblem>)
    ensures
        r@ == alias_not_found(alias@),
{
    let mut m = String::from_str("alias '");
    m.append(alias);
    m.append("' not found");
    Error { kind: ConfigProblem::AliasNotFound, message: m }
}

/// The cluster and the service of a target, which are its first two parts.
pub open spec fn cluster_and_service(target: Seq<char>) -> Option<(Seq<char>, Seq<char>)> {
    let parts = text::split_at_most(target, 4, '/');
    if parts.len() >= 2 {
        Some((parts[0], parts[1]))
    } else {
        None
    }
}

/// Splits a target into its cluster and its service.
pub fn split_target<'a>(target: &'a str) -> (r: Option<(&'a str, &'a str)>)
    ensures
        match r {
            Some((cluster, service)) => cluster_and_service(target@) == Some(
                (cluster@, service@),
            ),
            None => cluster_and_service(target@) is None,
        },
{
    let parts = text::splitn(target, 4, '/');
    let ghost all = text::slices(parts@);
    if parts.len() >= 2 {
        assert(all[0] == parts@[0]@);
        assert(all[1] == parts@[1]@);
        Some((parts[0], parts[1]))
    } else {
        None
    }
}

/// The complaint about a group without members.
pub open spec fn empty_group(name: Seq<char>) -> Problem {
    (ConfigProblem::EmptyGroup, "group '"@ + name + "' is empty or not found"@)
}

impl Config {
    /// How many seconds a presigned URL is valid: one minute, unless set.
    pub fn presign_expiry_secs(&self) -> (r: u64)
        ensures
            r == (match self.presign_expiry {
                Some(secs) => secs,
                None => 60,
            }),
    {
        match self.presign_expiry {
            Some(secs) => secs,
            None => 60,
        }
    }

    /// The short names that a name stands for: the members of a group after
    /// `@`, or the name itself.
    pub open spec fn targets(&self, target: Seq<char>) -> Seq<Seq<char>> {
        if target.len() > 0 && target[0] == '@' {
            if self.groups@.contains_key(target.skip(1)) {
                text::texts(self.groups@[target.skip(1)]@)
            } else {
                Seq::empty()
            }
        } else {
            seq![target]
        }
    }

    /// Lists the short names that a name stands for.
    pub fn resolve_targets(&self, target: &str) -> (r: Vec<String>)
        ensures
            text::texts(r@) == self.targets(target@),
    {
        let n = target.unicode_len();
        let mut out: Vec<String> = Vec::new();
        if n > 0 && target.get_char(0) == '@' {
            let group = target.substring_char(1, n);
            assert(group@ =~= target@.skip(1));
            match self.groups.get(group) {
                Some(members) => {
                    return text::copy_all(members);
                },
                None => {
                    assert(text::texts(out@) =~= Seq::empty());
                },
            }
        } else {
            out.push(String::from_str(target));
            assert(text::texts(out@) =~= seq![target@]);
        }
        out
    }

    /// Lists the short names that a name stands for, of which there must be at
    /// least one.
    pub fn resolve_some_targets(&self, target: &str) -> (r: Result<
        Vec<String>,
        Error<ConfigProblem>,
    >)
        ensures
            match r {
                Ok(list) => text::texts(list@) == self.targets(target@) && list@.len() > 0,
                Err(e) => self.targets(target@).len() == 0 && e@ == empty_group(target@),
            },
    {
        let list = self.resolve_targets(target);
        assert(list@.len() == text::texts(list@).len());
        if list.len() == 0 {
            let mut m = String::from_str("group '");
            m.append(target);
            m.append("' is empty or not found");
            return Err(Error { kind: ConfigProblem::EmptyGroup, message: m });
        }
        Ok(list)
    }

    /// The role that schedules run under, where it is set.
    pub open spec fn role(&self) -> Option<Seq<char>> {
        match self.scheduler {
            Some(s) => text::opt_text(s.role_arn),
            None => None,
        }
    }

    /// The role that schedules run under, where it is set.
    pub fn scheduler_role_arn(&self) -> (r: Option<&str>)
        ensures
            match r {
                Some(arn) => self.role() == Some(arn@),
                None => self.role() is None,
            },
    {
        match &self.scheduler {
            Some(s) => match &s.role_arn {
                Some(arn) => Some(arn.as_str()),
                None => None,
            },
            None => None,
        }
    }

    /// The role that schedules run under: the one that is given, or else the
    /// one that is set.
    pub fn resolve_scheduler_role_arn(&self, flag_value: Option<String>) -> (r: Result<
        String,
        Error<ConfigProblem>,
    >)
        ensures
            match (flag_value, self.role()) {
                (Some(arn), _) => r matches Ok(s) && s@ == arn@,
                (None, Some(arn)) => r matches Ok(s) && s@ == arn,
                (None, None) => r matches Err(e) && e@ == (
                    ConfigProblem::NoRoleArn,
                    "scheduler role ARN required.\nProvide --role-arn or set [scheduler].role_arn in ~/.ecsctl/config.toml\n\nExample config:\n  [scheduler]\n  role_arn = \"arn:aws:iam::123456789012:role/ecsctl-scheduler-role\""@,
                ),
            },
    {
        match flag_value {
            Some(arn) => Ok(arn),
            None => match self.scheduler_role_arn() {
                Some(arn) => Ok(String::from_str(arn)),
                None => Err(
                    Error {
                        kind: ConfigProblem::NoRoleArn,
                        message: String::from_str(
                            "scheduler role ARN required.\nProvide --role-arn or set [scheduler].role_arn in ~/.ecsctl/config.toml\n\nExample config:\n  [scheduler]\n  role_arn = \"arn:aws:iam::123456789012:role/ecsctl-scheduler-role\"",
                        ),
                    },
                ),
            },
        }
    }

    /// The group that schedules are put in.
    pub open spec fn schedule_group(&self) -> Seq<char> {
        match self.scheduler {
            Some(s) => match s.group_name {
                Some(name) => name@,
                None => "ecsctl-schedules"@,
            },
            None => "ecsctl-schedules"@,
        }
    }

    /// The group that schedules are put in.
    pub fn scheduler_group_name(&self) -> (r: &str)
        ensures
            r@ == self.schedule_group(),
    {
        match &self.scheduler {
            Some(s) => match &s.group_name {
                Some(name) => name.as_str(),
                None => "ecsctl-schedules",
            },
            None => "ecsctl-schedules",
        }
    }

    /// What a short name comes to: a cluster and a service.
    pub open spec fn alias_result(&self, alias: Seq<char>) -> Result<
        (Seq<char>, Seq<char>),
        Problem,
    > {
        if !self.aliases@.contains_key(alias) {
            Err(alias_not_found(alias))
        } else {
            let target = self.aliases@[alias]@;
            match cluster_and_service(target) {
                Some(pair) => Ok(pair),
                None => Err(
                    (
                        ConfigProblem::InvalidAlias,
                        "invalid alias target for '"@ + alias
                            + "': expected 'cluster/service', got '"@ + target + "'"@,
                    ),
                ),
            }
        }
    }

    /// Looks up the cluster and the service of a short name. Groups are not
    /// looked up (see [`Config::resolve_targets`]).
    pub fn resolve_alias(&self, alias: &str) -> (r: Result<(&str, &str), Error<ConfigProblem>>)
        ensures
            match r {
                Ok((cluster, service)) => self.alias_result(alias@) == Ok::<
                    (Seq<char>, Seq<char>),
                    Problem,
                >((cluster@, service@)),
                Err(e) => self.alias_result(alias@) == Err::<(Seq<char>, Seq<char>), Problem>(e@),
            },
    {
        match self.aliases.get(alias) {
            None => Err(not_found(alias)),
            Some(target) => match split_target(target.as_str()) {
                Some(pair) => Ok(pair),
                None => {
                    let mut m = String::from_str("invalid alias target for '");
                    m.append(alias);
                    m.append("': expected 'cluster/service', got '");
                    m.append(target.as_str());
                    m.append("'");
                    Err(Error { kind: ConfigProblem::InvalidAlias, message: m })
                },
            },
        }
    }

    /// What the short name of an existing service comes to, for a command that
    /// needs it: a cluster and a service.
    pub open spec fn service_result(&self, name: Seq<char>) -> Result<
        (Seq<char>, Seq<char>),
        Problem,
    > {
        if !self.aliases@.contains_key(name) {
            Err(alias_not_found(name))
        } else {
            match cluster_and_service(self.aliases@[name]@) {
                Some(pair) => Ok(pair),
                None => Err((ConfigProblem::InvalidAlias, "invalid alias target"@)),
            }
        }
    }

    /// Looks up the service that a short name stands for, to export or delete
    /// it.
    pub fn resolve_service(&self, name: &str) -> (r: Result<(&str, &str), Error<ConfigProblem>>)
        ensures
            match r {
                Ok((cluster, service)) => self.service_result(name@) == Ok::<
                    (Seq<char>, Seq<char>),
                    Problem,
                >((cluster@, service@)),
                Err(e) => self.service_result(name@) == Err::<(Seq<char>, Seq<char>), Problem>(
                    e@,
                ),
            },
    {
        match self.aliases.get(name) {
            None => Err(not_found(name)),
            Some(target) => match split_target(target.as_str()) {
                Some(pair) => Ok(pair),
                None => Err(
                    Error {
                        kind: ConfigProblem::InvalidAlias,
                        message: String::from_str("invalid alias target"),
                    },
                ),
            },
        }
    }

    /// Whether some short name stands for a target.
    pub open spec fn knows(&self, target: Seq<char>) -> bool {
        exists|name: Seq<char>| #[trigger]
            self.aliases@.contains_key(name) && self.aliases@[name]@ == target
    }

    /// Whether some short name stands for a target.
    fn has_target(&self, target: &str) -> (r: bool)
        ensures
            r == self.knows(target@),
    {
        let n = self.aliases.len();
        let mut i: usize = 0;
        while i < n
            invariant
                n == self.aliases.len_spec(),
                self.aliases.ordered(),
                i <= n,
                forall|j: int| 0 <= j < i ==> (#[trigger] self.aliases.value(j))@ != target@,
            decreases n - i,
        {
            if text::same(self.aliases.value_at(i).as_str(), target) {
                proof {
                    let name = self.aliases.key(i as int);
                    assert(self.aliases@.contains_key(name));
                }
                return true;
            }
            i = i + 1;
        }
        proof {
            if self.knows(target@) {
                let name = choose|name: Seq<char>| #[trigger]
                    self.aliases@.contains_key(name) && self.aliases@[name]@ == target@;
                assert(self.aliases.has(name));
                let j = choose|j: int|
                    0 <= j < self.aliases.len_spec() && #[trigger] self.aliases.key(j) == name;
                assert(self.aliases@[self.aliases.key(j)] == self.aliases.value(j));
            }
        }
        false
    }

    /// Gives a service that was deployed a short name, which is its own, unless
    /// it has one. Tells whether it did.
    pub fn register_service(&mut self, cluster: &str, service: &str) -> (r: bool)
        ensures
            r == !old(self).knows(cluster@ + "/"@ + service@),
            r ==> {
                &&& final(self).aliases@.dom() == old(self).aliases@.dom().insert(service@)
                &&& final(self).aliases@[service@]@ == cluster@ + "/"@ + service@
                &&& forall|name: Seq<char>|
                    name != service@ && #[trigger] old(self).aliases@.contains_key(name)
                        ==> final(self).aliases@[name] == old(self).aliases@[name]
                &&& final(self).bucket == old(self).bucket
                &&& final(self).presign_expiry == old(self).presign_expiry
                &&& final(self).cluster == old(self).cluster
                &&& final(self).groups == old(self).groups
                &&& final(self).scheduler == old(self).scheduler
            },
            !r ==> *final(self) == *old(self),
            final(self).knows(cluster@ + "/"@ + service@),
    {
        let mut target = String::from_str(cluster);
        target.append("/");
        target.append(service);
        if self.has_target(target.as_str()) {
            return false;
        }
        self.aliases.insert(String::from_str(service), target);
        assert(self.aliases@.contains_key(service@));
        true
    }
}

/// A name with `@` in front stands for the members of the group of that name, in their
/// order, and for nothing where there is no such group; any other name stands for itself.
pub proof fn lemma_what_names_stand_for(cfg: Config, name: Seq<char>)
    ensures
        cfg.groups@.contains_key(name) ==> cfg.targets(seq!['@'] + name)
            == cfg.groups@[name]@.map_values(|s: String| s@),
        !cfg.groups@.contains_key(name) ==> cfg.targets(seq!['@'] + name).len() == 0,
        name.len() == 0 || name[0] != '@' ==> cfg.targets(name) == seq![name],
{
    assert((seq!['@'] + name).skip(1) =~= name);
}

/// A target names the cluster before its first slash, and the service between that and the
/// next one, whatever follows; without a slash it names none.
pub proof fn lemma_parts_of_target(cluster: Seq<char>, service: Seq<char>, rest: Seq<char>)
    requires
        !cluster.contains('/'),
        !service.contains('/'),
    ensures
        cluster_and_service(cluster) is None,
        cluster_and_service(cluster + seq!['/'] + service) == Some((cluster, service)),
        cluster_and_service(cluster + seq!['/'] + (service + seq!['/'] + rest)) == Some(
            (cluster, service),
        ),
{
    text::lemma_first_piece(cluster, service, 4, '/');
    text::lemma_first_piece(service, rest, 3, '/');
    text::lemma_first_piece(cluster, service + seq!['/'] + rest, 4, '/');
    text::lemma_split_at_most(rest, 2, '/');
}

/// A short name is looked up as it is kept, for every command alike: one that is kept for a
/// cluster and a service gives them, one that is kept for something else is refused, and
/// one that is not kept is not found.
pub proof fn lemma_short_names(
    cfg: Config,
    name: Seq<char>,
    cluster: Seq<char>,
    service: Seq<char>,
)
    requires
        !cluster.contains('/'),
        !service.contains('/'),
    ensures
        !cfg.aliases@.contains_key(name) ==> (cfg.alias_result(name) matches Err(e) && e.0
            == ConfigProblem::AliasNotFound) && (cfg.service_result(name) matches Err(e) && e.0
            == ConfigProblem::AliasNotFound),
        cfg.aliases@.contains_key(name) && cfg.aliases@[name]@ == cluster + seq!['/'] + service
            ==> cfg.alias_result(name) == Ok::<(Seq<char>, Seq<char>), Problem>((cluster, service))
            && cfg.service_result(name) == Ok::<(Seq<char>, Seq<char>), Problem>(
            (cluster, service),
        ),
        cfg.aliases@.contains_key(name) && cfg.aliases@[name]@ == cluster ==> (cfg.alias_result(
            name,
        ) matches Err(e) && e.0 == ConfigProblem::InvalidAlias) && (cfg.service_result(
            name,
        ) matches Err(e) && e.0 == ConfigProblem::InvalidAlias),
{
    lemma_parts_of_target(cluster, service, Seq::empty());
}

/// The role and the group of schedules are those that are set; a group has a name where
/// none is set, a role has none.
pub proof fn lemma_schedule_settings(cfg: Config)
    ensures
        cfg.scheduler is None ==> cfg.role() is None && cfg.schedule_group()
            == "ecsctl-schedules"@,
        cfg.scheduler matches Some(s) ==> (s.role_arn is None ==> cfg.role() is None) && (
        s.role_arn matches Some(arn) ==> cfg.role() == Some(arn@)) && (s.group_name is None
            ==> cfg.schedule_group() == "ecsctl-schedules"@) && (s.group_name matches Some(g)
            ==> cfg.schedule_group() == g@),
{
}

/// A target is known exactly if some short name is kept for it.
pub proof fn lemma_known_target(cfg: Config, name: Seq<char>, target: Seq<char>)
    ensures
        cfg.aliases@.contains_key(name) ==> cfg.knows(cfg.aliases@[name]@),
        (forall|n: Seq<char>| #[trigger]
            cfg.aliases@.contains_key(n) ==> cfg.aliases@[n]@ != target) ==> !cfg.knows(target),
{
}

} // verus!
