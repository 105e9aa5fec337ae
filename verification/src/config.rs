//! Server configuration: hosts, host groups, the rules that complete a freshly
//! parsed configuration, and the credential checks made against it.

use vstd::prelude::*;
use vstd::hash_map::StringHashMap;
use crate::text::str_eq;

verus! {

pub fn default_as_true() -> (r: bool)
    ensures
        r,
{
    true
}

pub fn default_grpc_addr() -> (r: String)
    ensures
        r@ == "0.0.0.0:9394"@,
{
    "0.0.0.0:9394".to_owned()
}

pub fn default_http_addr() -> (r: String)
    ensures
        r@ == "0.0.0.0:8080"@,
{
    "0.0.0.0:8080".to_owned()
}

pub fn default_workspace() -> (r: String)
    ensures
        r@ == "/opt/ServerStatus"@,
{
    "/opt/ServerStatus".to_owned()
}

pub fn default_tls_dir() -> (r: String)
    ensures
        r@ == "tls"@,
{
    "tls".to_owned()
}

/// A monitored host.
#[derive(Debug)]
pub struct Host {
    pub name: String,
    pub password: String,
    pub alias: String,
    pub location: String,
    pub type_: String,
    pub monthstart: u32,
    pub notify: bool,
    pub disabled: bool,
    pub labels: String,
    pub last_network_in: u64,
    pub last_network_out: u64,
    pub pos: usize,
    pub weight: u64,
    pub gid: String,
    pub latest_ts: u64,
}

impl Clone for Host {
    fn clone(&self) -> (r: Self)
        ensures
            r == *self,
    {
        Host {
            name: self.name.clone(),
            password: self.password.clone(),
            alias: self.alias.clone(),
            location: self.location.clone(),
            type_: self.type_.clone(),
            monthstart: self.monthstart,
            notify: self.notify,
            disabled: self.disabled,
            labels: self.labels.clone(),
            last_network_in: self.last_network_in,
            last_network_out: self.last_network_out,
            pos: self.pos,
            weight: self.weight,
            gid: self.gid.clone(),
            latest_ts: self.latest_ts,
        }
    }
}

impl Host {
    /// Every text field empty, every number zero, every flag unset.
    pub open spec fn is_blank(self) -> bool {
        &&& self.name@.len() == 0
        &&& self.password@.len() == 0
        &&& self.alias@.len() == 0
        &&& self.location@.len() == 0
        &&& self.type_@.len() == 0
        &&& self.monthstart == 0
        &&& !self.notify
        &&& !self.disabled
        &&& self.labels@.len() == 0
        &&& self.last_network_in == 0
        &&& self.last_network_out == 0
        &&& self.pos == 0
        &&& self.weight == 0
        &&& self.gid@.len() == 0
        &&& self.latest_ts == 0
    }
}

impl Default for Host {
    fn default() -> (r: Self)
        ensures
            r.is_blank(),
    {
        Host {
            name: String::new(),
            password: String::new(),
            alias: String::new(),
            location: String::new(),
            type_: String::new(),
            monthstart: 0,
            notify: false,
            disabled: false,
            labels: String::new(),
            last_network_in: 0,
            last_network_out: 0,
            pos: 0,
            weight: 0,
            gid: String::new(),
            latest_ts: 0,
        }
    }
}

/// A group of hosts that share one password; hosts of the group are created on demand.
#[derive(Debug)]
pub struct HostGroup {
    pub gid: String,
    pub password: String,
    pub location: String,
    pub type_: String,
    pub notify: bool,
    pub pos: usize,
    pub weight: u64,
    pub labels: String,
}

impl Clone for HostGroup {
    fn clone(&self) -> (r: Self)
        ensures
            r == *self,
    {
        HostGroup {
            gid: self.gid.clone(),
            password: self.password.clone(),
            location: self.location.clone(),
            type_: self.type_.clone(),
            notify: self.notify,
            pos: self.pos,
            weight: self.weight,
            labels: self.labels.clone(),
        }
    }
}

impl HostGroup {
    /// A host named `name` that belongs to this group.
    pub fn inst_host(&self, name: &str) -> (h: Host)
        ensures
            h.name@ == name@,
            h.gid == self.gid,
            h.password == self.password,
            h.location == self.location,
            h.type_ == self.type_,
            h.monthstart == 1,
            h.notify == self.notify,
            h.pos == self.pos,
            h.weight == self.weight,
            h.labels == self.labels,
            h.alias@.len() == 0,
            !h.disabled,
            h.last_network_in == 0,
            h.last_network_out == 0,
            h.latest_ts == 0,
    {
        Host {
            name: name.to_owned(),
            password: self.password.clone(),
            alias: String::new(),
            location: self.location.clone(),
            type_: self.type_.clone(),
            monthstart: 1,
            notify: self.notify,
            disabled: false,
            labels: self.labels.clone(),
            last_network_in: 0,
            last_network_out: 0,
            pos: self.pos,
            weight: self.weight,
            gid: self.gid.clone(),
            latest_ts: 0,
        }
    }
}

/// The server configuration.
pub struct Config {
    pub http_addr: String,
    pub grpc_addr: String,
    pub notify_interval: u64,
    pub offline_threshold: u64,
    pub grpc_tls: u32,
    pub tls_dir: String,
    pub admin_user: Option<String>,
    pub admin_pass: Option<String>,
    pub jwt_secret: Option<String>,
    pub hosts: Vec<Host>,
    pub hosts_group: Vec<HostGroup>,
    pub group_gc: u64,
    pub server_url: String,
    pub workspace: String,
    pub hosts_map: StringHashMap<Host>,
    pub hosts_group_map: StringHashMap<HostGroup>,
}

impl Default for Config {
    /// A configuration that has not been completed yet: thresholds are zero and
    /// no credentials are set.
    fn default() -> (r: Self)
        ensures
            r.http_addr@ == "0.0.0.0:8080"@,
            r.grpc_addr@ == "0.0.0.0:9394"@,
            r.notify_interval == 0,
            r.offline_threshold == 0,
            r.grpc_tls == 0,
            r.tls_dir@ == "tls"@,
            r.admin_user is None,
            r.admin_pass is None,
            r.jwt_secret is None,
            r.hosts@.len() == 0,
            r.hosts_group@.len() == 0,
            r.group_gc == 0,
            r.server_url@.len() == 0,
            r.workspace@ == "/opt/ServerStatus"@,
            r.hosts_map@ == Map::<Seq<char>, Host>::empty(),
            r.hosts_group_map@ == Map::<Seq<char>, HostGroup>::empty(),
    {
        Config {
            http_addr: default_http_addr(),
            grpc_addr: default_grpc_addr(),
            notify_interval: 0,
            offline_threshold: 0,
            grpc_tls: 0,
            tls_dir: default_tls_dir(),
            admin_user: None,
            admin_pass: None,
            jwt_secret: None,
            hosts: Vec::new(),
            hosts_group: Vec::new(),
            group_gc: 0,
            server_url: String::new(),
            workspace: default_workspace(),
            hosts_map: StringHashMap::new(),
            hosts_group_map: StringHashMap::new(),
        }
    }
}

/// The hosts indexed by name; a later entry replaces an earlier one of the same name.
pub open spec fn hosts_by_name(hosts: Seq<Host>) -> Map<Seq<char>, Host>
    decreases hosts.len(),
{
    if hosts.len() == 0 {
        Map::empty()
    } else {
        hosts_by_name(hosts.drop_last()).insert(hosts.last().name@, hosts.last())
    }
}

/// The groups indexed by id; a later entry replaces an earlier one of the same id.
pub open spec fn groups_by_id(groups: Seq<HostGroup>) -> Map<Seq<char>, HostGroup>
    decreases groups.len(),
{
    if groups.len() == 0 {
        Map::empty()
    } else {
        groups_by_id(groups.drop_last()).insert(groups.last().gid@, groups.last())
    }
}

pub open spec fn clamp_month_start(m: u32) -> u32 {
    if m < 1 || m > 31 {
        1
    } else {
        m
    }
}

pub open spec fn at_least_30(v: u64) -> u64 {
    if v < 30 {
        30
    } else {
        v
    }
}

/// The weight of the host at position `i`: earlier hosts weigh more.
pub open spec fn host_weight(i: int) -> u64 {
    (10000 - i) as u64
}

/// The weight of the group at position `i`: earlier groups weigh more.
pub open spec fn group_weight(i: int) -> u64 {
    (10000 - (1 + i) * 100) as u64
}

/// The host at position `i` once the configuration is completed.
pub open spec fn completed_host(h: Host, i: int) -> Host {
    Host {
        pos: i as usize,
        alias: if h.alias@.len() == 0 {
            h.name
        } else {
            h.alias
        },
        monthstart: clamp_month_start(h.monthstart),
        weight: host_weight(i),
        ..h
    }
}

/// The group at position `i` once the configuration is completed.
pub open spec fn completed_group(g: HostGroup, i: int) -> HostGroup {
    HostGroup { pos: i as usize, weight: group_weight(i), ..g }
}

/// An optional setting that is absent or empty and so takes its default.
pub open spec fn takes_default(o: Option<String>) -> bool {
    match o {
        None => true,
        Some(s) => s@.len() == 0,
    }
}

/// `after` is `before` completed, with `pass` and `secret` as the generated
/// admin password and token secret where those are missing.
pub open spec fn completed_from(before: Config, after: Config, pass: Seq<char>, secret: Seq<char>) -> bool {
    &&& after.hosts@ == Seq::new(
        before.hosts@.len(),
        |i: int| completed_host(before.hosts@[i], i),
    )
    &&& after.hosts_map@ == hosts_by_name(after.hosts@)
    &&& after.hosts_group@ == Seq::new(
        before.hosts_group@.len(),
        |i: int| completed_group(before.hosts_group@[i], i),
    )
    &&& after.hosts_group_map@ == before.hosts_group_map@.union_prefer_right(
        groups_by_id(after.hosts_group@),
    )
    &&& after.offline_threshold == at_least_30(before.offline_threshold)
    &&& after.notify_interval == at_least_30(before.notify_interval)
    &&& after.group_gc == at_least_30(before.group_gc)
    &&& if takes_default(before.admin_user) {
        after.admin_user matches Some(u) && u@ == "admin"@
    } else {
        after.admin_user == before.admin_user
    }
    &&& if takes_default(before.admin_pass) {
        after.admin_pass matches Some(p) && p@ == pass
    } else {
        after.admin_pass == before.admin_pass
    }
    &&& if takes_default(before.jwt_secret) {
        after.jwt_secret matches Some(s) && s@ == secret
    } else {
        after.jwt_secret == before.jwt_secret
    }
    &&& after.http_addr == before.http_addr
    &&& after.grpc_addr == before.grpc_addr
    &&& after.grpc_tls == before.grpc_tls
    &&& after.tls_dir == before.tls_dir
    &&& after.server_url == before.server_url
    &&& after.workspace == before.workspace
}

/// Whether the configuration can be completed: host weights start at 10000 and
/// drop by one per host, group weights drop by 100 per group, and neither may
/// go below zero.
pub open spec fn completable(c: Config) -> bool {
    &&& c.hosts@.len() <= 10001
    &&& c.hosts_group@.len() <= 100
}

pub open spec fn is_lower_hex(c: char) -> bool {
    ('0' <= c <= '9') || ('a' <= c <= 'f')
}

/// The hyphenated lower-case text of a random (version 4, RFC 4122 variant) UUID.
pub open spec fn is_v4_uuid_text(s: Seq<char>) -> bool {
    &&& s.len() == 36
    &&& forall|i: int|
        0 <= i < 36 ==> if i == 8 || i == 13 || i == 18 || i == 23 {
            #[trigger] s[i] == '-'
        } else {
            is_lower_hex(s[i])
        }
    &&& s[14] == '4'
    &&& (s[19] == '8' || s[19] == '9' || s[19] == 'a' || s[19] == 'b')
}

/// `uuid::Uuid::new_v4()`, turned into text with `to_string()`. The value is
/// random; the contract states only what holds of every outcome: the text is
/// the 36-character hyphenated lower-case form, with the version digit `4` and
/// the variant digit one of `8`, `9`, `a`, `b`.
#[verifier::external_body]
fn random_uuid_text() -> (s: String)
    ensures
        is_v4_uuid_text(s@),
{
    uuid::Uuid::new_v4().to_string()
}

fn option_takes_default(o: &Option<String>) -> (r: bool)
    ensures
        r == takes_default(*o),
{
    match o {
        None => true,
        Some(s) => s.as_str().is_empty(),
    }
}

impl Config {
    /// Whether `complete` and `complete_with` can be applied.
    pub fn is_completable(&self) -> (r: bool)
        ensures
            r == completable(*self),
    {
        self.hosts.len() <= 10001 && self.hosts_group.len() <= 100
    }

    /// Whether a host named `user` exists and has the password `pass`.
    pub fn auth(&self, user: &str, pass: &str) -> (r: bool)
        ensures
            r == (self.hosts_map@.contains_key(user@) && self.hosts_map@[user@].password@ == pass@),
    {
        match self.hosts_map.get(user) {
            Some(o) => str_eq(pass, o.password.as_str()),
            None => false,
        }
    }

    /// Whether a host group with id `gid` exists and has the password `pass`.
    pub fn group_auth(&self, gid: &str, pass: &str) -> (r: bool)
        ensures
            r == (self.hosts_group_map@.contains_key(gid@)
                && self.hosts_group_map@[gid@].password@ == pass@),
    {
        match self.hosts_group_map.get(gid) {
            Some(o) => str_eq(pass, o.password.as_str()),
            None => false,
        }
    }

    /// Whether both admin credentials are set and equal `user` and `pass`.
    pub fn admin_auth(&self, user: &str, pass: &str) -> (r: bool)
        ensures
            r == (self.admin_user matches Some(u) && self.admin_pass matches Some(p) && u@
                == user@ && p@ == pass@),
    {
        match (&self.admin_user, &self.admin_pass) {
            (Some(u), Some(p)) => str_eq(user, u.as_str()) && str_eq(pass, p.as_str()),
            _ => false,
        }
    }

    /// Completes a freshly parsed configuration: numbers the hosts and groups,
    /// fills in aliases, repairs month starts, indexes hosts and groups, raises
    /// the thresholds to at least 30 seconds and fills in missing admin
    /// credentials, using `fallback_pass` and `fallback_secret` for the
    /// password and the token secret where those are missing.
    pub fn complete_with(&mut self, fallback_pass: String, fallback_secret: String)
        requires
            completable(*old(self)),
        ensures
            completed_from(*old(self), *final(self), fallback_pass@, fallback_secret@),
    {
        let ghost before = *self;
        let mut hosts: Vec<Host> = Vec::new();
        let mut hosts_map: StringHashMap<Host> = StringHashMap::new();
        let n = self.hosts.len();
        for idx in 0..n
            invariant
                n == self.hosts@.len(),
                n <= 10001,
                self.hosts@ == before.hosts@,
                hosts@ == Seq::new(idx as nat, |i: int| completed_host(before.hosts@[i], i)),
                hosts_map@ == hosts_by_name(hosts@),
        {
            let mut h = self.hosts[idx].clone();
            h.pos = idx;
            if h.alias.as_str().is_empty() {
                h.alias = h.name.clone();
            }
            if h.monthstart < 1 || h.monthstart > 31 {
                h.monthstart = 1;
            }
            h.weight = 10000 - idx as u64;
            let ghost prev = hosts@;
            hosts.push(h.clone());
            hosts_map.insert(h.name.clone(), h);
            assert(hosts@.drop_last() =~= prev);
            assert(hosts@ =~= Seq::new(
                (idx + 1) as nat,
                |i: int| completed_host(before.hosts@[i], i),
            ));
        }
        self.hosts = hosts;
        self.hosts_map = hosts_map;

        let mut groups: Vec<HostGroup> = Vec::new();
        let mut groups_map: StringHashMap<HostGroup> = StringHashMap::new();
        std::mem::swap(&mut groups_map, &mut self.hosts_group_map);
        let m = self.hosts_group.len();
        for idx in 0..m
            invariant
                m == self.hosts_group@.len(),
                m <= 100,
                self.hosts_group@ == before.hosts_group@,
                groups@ == Seq::new(
                    idx as nat,
                    |i: int| completed_group(before.hosts_group@[i], i),
                ),
                groups_map@ == before.hosts_group_map@.union_prefer_right(
                    groups_by_id(groups@),
                ),
        {
            let mut g = self.hosts_group[idx].clone();
            g.pos = idx;
            g.weight = (10000 - (1 + idx) * 100) as u64;
            let ghost prev = groups@;
            groups.push(g.clone());
            groups_map.insert(g.gid.clone(), g);
            assert(groups@.drop_last() =~= prev);
            assert(groups@ =~= Seq::new(
                (idx + 1) as nat,
                |i: int| completed_group(before.hosts_group@[i], i),
            ));
            assert(groups_map@ =~= before.hosts_group_map@.union_prefer_right(
                groups_by_id(groups@),
            ));
        }
        self.hosts_group = groups;
        self.hosts_group_map = groups_map;

        if self.offline_threshold < 30 {
            self.offline_threshold = 30;
        }
        if self.notify_interval < 30 {
            self.notify_interval = 30;
        }
        if self.group_gc < 30 {
            self.group_gc = 30;
        }
        if option_takes_default(&self.admin_user) {
            self.admin_user = Some("admin".to_owned());
        }
        if option_takes_default(&self.admin_pass) {
            self.admin_pass = Some(fallback_pass);
        }
        if option_takes_default(&self.jwt_secret) {
            self.jwt_secret = Some(fallback_secret);
        }
    }

    /// Completes a freshly parsed configuration as `complete_with` does, with a
    /// fresh random UUID as the admin password and as the token secret where
    /// those are missing.
    pub fn complete(&mut self)
        requires
            completable(*old(self)),
        ensures
            exists|p: Seq<char>, s: Seq<char>| #[trigger]
                completed_from(*old(self), *final(self), p, s),
            takes_default(old(self).admin_pass) ==> (final(self).admin_pass matches Some(p)
                && is_v4_uuid_text(p@)),
            takes_default(old(self).jwt_secret) ==> (final(self).jwt_secret matches Some(s)
                && is_v4_uuid_text(s@)),
    {
        let ghost before = *self;
        let pass = if option_takes_default(&self.admin_pass) {
            random_uuid_text()
        } else {
            String::new()
        };
        let secret = if option_takes_default(&self.jwt_secret) {
            random_uuid_text()
        } else {
            String::new()
        };
        let ghost p = pass@;
        let ghost s = secret@;
        self.complete_with(pass, secret);
        assert(completed_from(before, *self, p, s));
    }
}

/// Index of the last host named `name`, or -1 when there is none.
pub open spec fn last_host_named(hosts: Seq<Host>, name: Seq<char>) -> int
    decreases hosts.len(),
{
    if hosts.len() == 0 {
        -1
    } else if hosts.last().name@ == name {
        hosts.len() - 1
    } else {
        last_host_named(hosts.drop_last(), name)
    }
}

/// Index of the last group with id `gid`, or -1 when there is none.
pub open spec fn last_group_with_id(groups: Seq<HostGroup>, gid: Seq<char>) -> int
    decreases groups.len(),
{
    if groups.len() == 0 {
        -1
    } else if groups.last().gid@ == gid {
        groups.len() - 1
    } else {
        last_group_with_id(groups.drop_last(), gid)
    }
}

proof fn lemma_hosts_by_name(hosts: Seq<Host>, name: Seq<char>)
    ensures
        -1 <= last_host_named(hosts, name) < hosts.len(),
        hosts_by_name(hosts).contains_key(name) == (last_host_named(hosts, name) >= 0),
        last_host_named(hosts, name) >= 0 ==> hosts_by_name(hosts)[name] == hosts[last_host_named(
            hosts,
            name,
        )],
    decreases hosts.len(),
{
    if hosts.len() > 0 {
        lemma_hosts_by_name(hosts.drop_last(), name);
    }
}

proof fn lemma_groups_by_id(groups: Seq<HostGroup>, gid: Seq<char>)
    ensures
        -1 <= last_group_with_id(groups, gid) < groups.len(),
        groups_by_id(groups).contains_key(gid) == (last_group_with_id(groups, gid) >= 0),
        last_group_with_id(groups, gid) >= 0 ==> groups_by_id(groups)[gid]
            == groups[last_group_with_id(groups, gid)],
    decreases groups.len(),
{
    if groups.len() > 0 {
        lemma_groups_by_id(groups.drop_last(), gid);
    }
}

proof fn lemma_last_host_named_same_names(a: Seq<Host>, b: Seq<Host>, name: Seq<char>)
    requires
        a.len() == b.len(),
        forall|i: int| 0 <= i < a.len() ==> (#[trigger] a[i]).name == b[i].name,
    ensures
        last_host_named(a, name) == last_host_named(b, name),
    decreases a.len(),
{
    if a.len() > 0 {
        assert(a.last().name == b.last().name);
        lemma_last_host_named_same_names(a.drop_last(), b.drop_last(), name);
    }
}

proof fn lemma_last_group_same_ids(a: Seq<HostGroup>, b: Seq<HostGroup>, gid: Seq<char>)
    requires
        a.len() == b.len(),
        forall|i: int| 0 <= i < a.len() ==> (#[trigger] a[i]).gid == b[i].gid,
    ensures
        last_group_with_id(a, gid) == last_group_with_id(b, gid),
    decreases a.len(),
{
    if a.len() > 0 {
        assert(a.last().gid == b.last().gid);
        lemma_last_group_same_ids(a.drop_last(), b.drop_last(), gid);
    }
}

/// Once a configuration is completed, a host logs in with a password exactly
/// when the last host entry with that name has that password.
pub proof fn law_host_login(
    before: Config,
    after: Config,
    p: Seq<char>,
    s: Seq<char>,
    user: Seq<char>,
    pass: Seq<char>,
)
    requires
        completed_from(before, after, p, s),
    ensures
        (after.hosts_map@.contains_key(user) && after.hosts_map@[user].password@ == pass) == (
        last_host_named(before.hosts@, user) >= 0 && before.hosts@[last_host_named(
            before.hosts@,
            user,
        )].password@ == pass),
{
    lemma_hosts_by_name(after.hosts@, user);
    assert forall|i: int| 0 <= i < after.hosts@.len() implies (#[trigger] after.hosts@[i]).name
        == before.hosts@[i].name by {
        assert(after.hosts@[i] == completed_host(before.hosts@[i], i));
    }
    lemma_last_host_named_same_names(after.hosts@, before.hosts@, user);
    let k = last_host_named(before.hosts@, user);
    if k >= 0 {
        assert(after.hosts@[k] == completed_host(before.hosts@[k], k));
    }
}

/// Once a configuration is completed, a group logs in with a password exactly
/// when the last group entry with that id has that password; an id that no
/// entry has keeps whatever the group index held before.
pub proof fn law_group_login(
    before: Config,
    after: Config,
    p: Seq<char>,
    s: Seq<char>,
    gid: Seq<char>,
    pass: Seq<char>,
)
    requires
        completed_from(before, after, p, s),
    ensures
        (after.hosts_group_map@.contains_key(gid) && after.hosts_group_map@[gid].password@ == pass)
            == if last_group_with_id(before.hosts_group@, gid) >= 0 {
            before.hosts_group@[last_group_with_id(before.hosts_group@, gid)].password@ == pass
        } else {
            before.hosts_group_map@.contains_key(gid) && before.hosts_group_map@[gid].password@
                == pass
        },
{
    lemma_groups_by_id(after.hosts_group@, gid);
    assert forall|i: int| 0 <= i < after.hosts_group@.len() implies (
    #[trigger] after.hosts_group@[i]).gid == before.hosts_group@[i].gid by {
        assert(after.hosts_group@[i] == completed_group(before.hosts_group@[i], i));
    }
    lemma_last_group_same_ids(after.hosts_group@, before.hosts_group@, gid);
    let k = last_group_with_id(before.hosts_group@, gid);
    if k >= 0 {
        assert(after.hosts_group@[k] == completed_group(before.hosts_group@[k], k));
    }
}

/// Two configurations that agree on every setting (the indexes by their contents).
pub open spec fn same_settings(a: Config, b: Config) -> bool {
    &&& a.http_addr == b.http_addr
    &&& a.grpc_addr == b.grpc_addr
    &&& a.notify_interval == b.notify_interval
    &&& a.offline_threshold == b.offline_threshold
    &&& a.grpc_tls == b.grpc_tls
    &&& a.tls_dir == b.tls_dir
    &&& a.admin_user == b.admin_user
    &&& a.admin_pass == b.admin_pass
    &&& a.jwt_secret == b.jwt_secret
    &&& a.hosts@ == b.hosts@
    &&& a.hosts_group@ == b.hosts_group@
    &&& a.group_gc == b.group_gc
    &&& a.server_url == b.server_url
    &&& a.workspace == b.workspace
    &&& a.hosts_map@ == b.hosts_map@
    &&& a.hosts_group_map@ == b.hosts_group_map@
}

/// Completing a completed configuration changes nothing, provided the
/// generated credentials of the first completion were not empty.
pub proof fn law_completion_idempotent(
    c0: Config,
    c1: Config,
    c2: Config,
    p1: Seq<char>,
    s1: Seq<char>,
    p2: Seq<char>,
    s2: Seq<char>,
)
    requires
        completed_from(c0, c1, p1, s1),
        completed_from(c1, c2, p2, s2),
        p1.len() > 0,
        s1.len() > 0,
    ensures
        same_settings(c1, c2),
{
    assert forall|i: int| 0 <= i < c1.hosts@.len() implies #[trigger] c2.hosts@[i]
        == c1.hosts@[i] by {
        assert(c1.hosts@[i] == completed_host(c0.hosts@[i], i));
        assert(c2.hosts@[i] == completed_host(c1.hosts@[i], i));
    }
    assert(c2.hosts@ =~= c1.hosts@);
    assert forall|i: int| 0 <= i < c1.hosts_group@.len() implies #[trigger] c2.hosts_group@[i]
        == c1.hosts_group@[i] by {
        assert(c1.hosts_group@[i] == completed_group(c0.hosts_group@[i], i));
        assert(c2.hosts_group@[i] == completed_group(c1.hosts_group@[i], i));
    }
    assert(c2.hosts_group@ =~= c1.hosts_group@);
    assert(c2.hosts_group_map@ =~= c1.hosts_group_map@);
    reveal_strlit("admin");
}

/// What every completed configuration satisfies: thresholds of at least 30,
/// month starts between 1 and 31, hosts and groups numbered by position with
/// weights that fall strictly with the position, aliases present for named
/// hosts, and all admin credentials set and non-empty.
pub proof fn law_completed_bounds(before: Config, after: Config, p: Seq<char>, s: Seq<char>)
    requires
        completed_from(before, after, p, s),
        completable(before),
        p.len() > 0,
        s.len() > 0,
    ensures
        after.offline_threshold >= 30,
        after.notify_interval >= 30,
        after.group_gc >= 30,
        forall|i: int|
            #![trigger after.hosts@[i]]
            0 <= i < after.hosts@.len() ==> {
                &&& 1 <= after.hosts@[i].monthstart <= 31
                &&& after.hosts@[i].pos == i
                &&& after.hosts@[i].weight == 10000 - i
                &&& (after.hosts@[i].name@.len() > 0 ==> after.hosts@[i].alias@.len() > 0)
            },
        forall|i: int, j: int|
            0 <= i < j < after.hosts@.len() ==> #[trigger] after.hosts@[i].weight
                > #[trigger] after.hosts@[j].weight,
        forall|i: int|
            #![trigger after.hosts_group@[i]]
            0 <= i < after.hosts_group@.len() ==> {
                &&& after.hosts_group@[i].pos == i
                &&& after.hosts_group@[i].weight == 10000 - 100 * (i + 1)
            },
        forall|i: int, j: int|
            0 <= i < j < after.hosts_group@.len() ==> #[trigger] after.hosts_group@[i].weight
                > #[trigger] after.hosts_group@[j].weight,
        after.admin_user matches Some(u) && u@.len() > 0,
        after.admin_pass matches Some(q) && q@.len() > 0,
        after.jwt_secret matches Some(t) && t@.len() > 0,
{
    assert forall|i: int| 0 <= i < after.hosts@.len() implies #[trigger] after.hosts@[i]
        == completed_host(before.hosts@[i], i) by {}
    assert forall|i: int| 0 <= i < after.hosts_group@.len() implies #[trigger] after.hosts_group@[i]
        == completed_group(before.hosts_group@[i], i) by {}
    reveal_strlit("admin");
}

/// Completing a configuration keeps each host's name, password and other given
/// fields, numbers it by its position with weight 10000 less that position,
/// fills an empty alias with the name, keeps a month start from 1 to 31 as it
/// was and puts 1 in place of any other; the name index then gives, for the
/// host's name, the last host of that name.
pub proof fn law_completed_host(
    before: Config,
    after: Config,
    p: Seq<char>,
    s: Seq<char>,
    i: int,
)
    requires
        completed_from(before, after, p, s),
        completable(before),
        0 <= i < before.hosts@.len(),
    ensures
        after.hosts@.len() == before.hosts@.len(),
        ({
            let b = before.hosts@[i];
            let a = after.hosts@[i];
            &&& a.monthstart == if 1 <= b.monthstart && b.monthstart <= 31 {
                b.monthstart
            } else {
                1u32
            }
            &&& a.name@ == b.name@
            &&& a.password@ == b.password@
            &&& a.alias@ == if b.alias@.len() == 0 {
                b.name@
            } else {
                b.alias@
            }
            &&& a.location@ == b.location@
            &&& a.type_@ == b.type_@
            &&& a.labels@ == b.labels@
            &&& a.gid@ == b.gid@
            &&& a.notify == b.notify
            &&& a.disabled == b.disabled
            &&& a.last_network_in == b.last_network_in
            &&& a.last_network_out == b.last_network_out
            &&& a.latest_ts == b.latest_ts
            &&& a.pos == i
            &&& a.weight == 10000 - i
        }),
        i <= last_host_named(before.hosts@, before.hosts@[i].name@) < before.hosts@.len(),
        after.hosts_map@.contains_key(before.hosts@[i].name@),
        after.hosts_map@[before.hosts@[i].name@] == after.hosts@[last_host_named(
            before.hosts@,
            before.hosts@[i].name@,
        )],
{
    let name = before.hosts@[i].name@;
    assert(after.hosts@[i] == completed_host(before.hosts@[i], i));
    assert forall|j: int| 0 <= j < after.hosts@.len() implies (#[trigger] after.hosts@[j]).name
        == before.hosts@[j].name by {
        assert(after.hosts@[j] == completed_host(before.hosts@[j], j));
    }
    lemma_last_host_named_same_names(after.hosts@, before.hosts@, name);
    lemma_last_host_named_at_least(before.hosts@, name, i);
    lemma_hosts_by_name(after.hosts@, name);
}

/// The last host named `name` stands at or after any host of that name.
proof fn lemma_last_host_named_at_least(hosts: Seq<Host>, name: Seq<char>, i: int)
    requires
        0 <= i < hosts.len(),
        hosts[i].name@ == name,
    ensures
        i <= last_host_named(hosts, name) < hosts.len(),
    decreases hosts.len(),
{
    if i < hosts.len() - 1 && hosts.last().name@ != name {
        lemma_last_host_named_at_least(hosts.drop_last(), name, i);
    }
}

} // verus!
