use server_status::config::{
    default_as_true, default_grpc_addr, default_http_addr, default_tls_dir, default_workspace,
    Config, Host, HostGroup,
};

fn group(gid: &str, password: &str) -> HostGroup {
    HostGroup {
        gid: gid.to_string(),
        password: password.to_string(),
        location: String::new(),
        type_: String::new(),
        notify: true,
        pos: 0,
        weight: 0,
        labels: String::new(),
    }
}

fn host(name: &str, password: &str) -> Host {
    Host {
        name: name.to_string(),
        password: password.to_string(),
        ..Default::default()
    }
}

#[test]
fn test_host_auth_success() {
    let mut config = Config::default();
    let host = Host {
        name: "test_host".to_string(),
        password: "test_pass".to_string(),
        ..Default::default()
    };
    config.hosts_map.insert("test_host".to_string(), host);
    assert!(config.auth("test_host", "test_pass"));
}

#[test]
fn test_host_auth_wrong_password() {
    let mut config = Config::default();
    let host = Host {
        name: "test_host".to_string(),
        password: "correct_pass".to_string(),
        ..Default::default()
    };
    config.hosts_map.insert("test_host".to_string(), host);
    assert!(!config.auth("test_host", "wrong_pass"));
}

#[test]
fn test_host_auth_nonexistent_user() {
    let config = Config::default();
    assert!(!config.auth("nonexistent", "any_pass"));
}

#[test]
fn test_group_auth_success() {
    let mut config = Config::default();
    config.hosts_group_map.insert("test_group".to_string(), group("test_group", "group_pass"));
    assert!(config.group_auth("test_group", "group_pass"));
}

#[test]
fn test_group_auth_failure() {
    let mut config = Config::default();
    config.hosts_group_map.insert("test_group".to_string(), group("test_group", "correct_pass"));
    assert!(!config.group_auth("test_group", "wrong_pass"));
    assert!(!config.group_auth("nonexistent_group", "any_pass"));
}

#[test]
fn test_admin_auth_success() {
    let config = Config {
        admin_user: Some("admin".to_string()),
        admin_pass: Some("admin_pass".to_string()),
        ..Default::default()
    };
    assert!(config.admin_auth("admin", "admin_pass"));
}

#[test]
fn test_admin_auth_failure() {
    let config = Config {
        admin_user: Some("admin".to_string()),
        admin_pass: Some("correct_pass".to_string()),
        ..Default::default()
    };
    assert!(!config.admin_auth("admin", "wrong_pass"));
    assert!(!config.admin_auth("wrong_user", "correct_pass"));
}

#[test]
fn test_admin_auth_no_credentials() {
    let config = Config {
        admin_user: None,
        admin_pass: None,
        ..Default::default()
    };
    assert!(!config.admin_auth("any_user", "any_pass"));
}

#[test]
fn test_host_group_inst_host() {
    let group = HostGroup {
        gid: "group1".to_string(),
        password: "pass123".to_string(),
        location: "Beijing".to_string(),
        type_: "VPS".to_string(),
        notify: true,
        pos: 5,
        weight: 100,
        labels: "prod,web".to_string(),
    };

    let host = group.inst_host("server1");

    assert_eq!(host.name, "server1");
    assert_eq!(host.gid, "group1");
    assert_eq!(host.password, "pass123");
    assert_eq!(host.location, "Beijing");
    assert_eq!(host.type_, "VPS");
    assert_eq!(host.monthstart, 1);
    assert!(host.notify);
    assert_eq!(host.pos, 5);
    assert_eq!(host.weight, 100);
    assert_eq!(host.labels, "prod,web");
}

#[test]
fn defaults_match_documented_addresses() {
    assert!(default_as_true());
    assert_eq!(default_grpc_addr(), "0.0.0.0:9394");
    assert_eq!(default_http_addr(), "0.0.0.0:8080");
    assert_eq!(default_workspace(), "/opt/ServerStatus");
    assert_eq!(default_tls_dir(), "tls");
    let c = Config::default();
    assert_eq!(c.http_addr, "0.0.0.0:8080");
    assert_eq!(c.grpc_addr, "0.0.0.0:9394");
    assert_eq!(c.offline_threshold, 0);
    assert!(c.admin_user.is_none());
}

fn sample_config() -> Config {
    let mut a = host("a", "pa");
    a.monthstart = 0;
    let mut b = host("b", "pb");
    b.alias = "bee".to_string();
    b.monthstart = 15;
    let mut a2 = host("a", "pa2");
    a2.monthstart = 40;
    Config {
        hosts: vec![a, b, a2],
        hosts_group: vec![group("g1", "x"), group("g2", "y"), group("g1", "z")],
        notify_interval: 10,
        offline_threshold: 60,
        group_gc: 0,
        ..Default::default()
    }
}

#[test]
fn completion_numbers_hosts_and_groups() {
    let mut c = sample_config();
    c.complete_with("secret-pass".to_string(), "secret-token".to_string());
    assert_eq!(c.hosts.len(), 3);
    assert_eq!(c.hosts[0].pos, 0);
    assert_eq!(c.hosts[2].pos, 2);
    assert_eq!(c.hosts[0].weight, 10000);
    assert_eq!(c.hosts[1].weight, 9999);
    assert_eq!(c.hosts[2].weight, 9998);
    assert_eq!(c.hosts[0].alias, "a");
    assert_eq!(c.hosts[1].alias, "bee");
    assert_eq!(c.hosts[0].monthstart, 1);
    assert_eq!(c.hosts[1].monthstart, 15);
    assert_eq!(c.hosts[2].monthstart, 1);
    assert_eq!(c.hosts_group[0].weight, 9900);
    assert_eq!(c.hosts_group[1].weight, 9800);
    assert_eq!(c.hosts_group[2].weight, 9700);
    assert_eq!(c.hosts_group[2].pos, 2);
    assert_eq!(c.notify_interval, 30);
    assert_eq!(c.offline_threshold, 60);
    assert_eq!(c.group_gc, 30);
    assert_eq!(c.admin_user.as_deref(), Some("admin"));
    assert_eq!(c.admin_pass.as_deref(), Some("secret-pass"));
    assert_eq!(c.jwt_secret.as_deref(), Some("secret-token"));
}

#[test]
fn completion_login_uses_last_entry_of_a_name() {
    let mut c = sample_config();
    c.complete_with("p".to_string(), "s".to_string());
    assert!(c.auth("a", "pa2"));
    assert!(!c.auth("a", "pa"));
    assert!(c.auth("b", "pb"));
    assert!(!c.auth("c", "pc"));
    assert!(c.group_auth("g1", "z"));
    assert!(!c.group_auth("g1", "x"));
    assert!(c.group_auth("g2", "y"));
    assert!(c.admin_auth("admin", "p"));
}

#[test]
fn completion_keeps_given_credentials() {
    let mut c = Config {
        admin_user: Some("root".to_string()),
        admin_pass: Some("hunter2".to_string()),
        jwt_secret: Some("".to_string()),
        ..Default::default()
    };
    c.complete_with("unused".to_string(), "fresh".to_string());
    assert_eq!(c.admin_user.as_deref(), Some("root"));
    assert_eq!(c.admin_pass.as_deref(), Some("hunter2"));
    assert_eq!(c.jwt_secret.as_deref(), Some("fresh"));
}

#[test]
fn completion_is_idempotent() {
    let mut c = sample_config();
    c.complete_with("p".to_string(), "s".to_string());
    let weights: Vec<u64> = c.hosts.iter().map(|h| h.weight).collect();
    let aliases: Vec<String> = c.hosts.iter().map(|h| h.alias.clone()).collect();
    c.complete_with("other".to_string(), "other".to_string());
    assert_eq!(c.hosts.iter().map(|h| h.weight).collect::<Vec<_>>(), weights);
    assert_eq!(c.hosts.iter().map(|h| h.alias.clone()).collect::<Vec<_>>(), aliases);
    assert_eq!(c.admin_pass.as_deref(), Some("p"));
    assert_eq!(c.jwt_secret.as_deref(), Some("s"));
    assert!(c.auth("a", "pa2"));
}

fn is_v4_uuid_text(s: &str) -> bool {
    let b = s.as_bytes();
    b.len() == 36
        && b.iter().enumerate().all(|(i, &c)| {
            if i == 8 || i == 13 || i == 18 || i == 23 {
                c == b'-'
            } else {
                c.is_ascii_digit() || (b'a'..=b'f').contains(&c)
            }
        })
        && b[14] == b'4'
        && matches!(b[19], b'8' | b'9' | b'a' | b'b')
}

#[test]
fn completion_generates_random_credentials() {
    let mut c = Config::default();
    c.complete();
    let p = c.admin_pass.clone().unwrap();
    let s = c.jwt_secret.clone().unwrap();
    assert!(is_v4_uuid_text(&p), "{p}");
    assert!(is_v4_uuid_text(&s), "{s}");
    assert_ne!(p, s);
    assert!(c.admin_auth("admin", &p));
    let mut d = Config::default();
    d.complete();
    assert_ne!(d.admin_pass.unwrap(), p);
}

#[test]
fn completion_of_an_empty_configuration() {
    let mut c = Config::default();
    c.complete_with("p".to_string(), "s".to_string());
    assert!(c.hosts.is_empty());
    assert_eq!(c.offline_threshold, 30);
    assert_eq!(c.notify_interval, 30);
    assert_eq!(c.group_gc, 30);
    assert!(!c.auth("", ""));
}
