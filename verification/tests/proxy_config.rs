use std::path::Path;

use nrpctl::certbot::{listen_port_for_ssl, ssl_certificate_paths, SSLSelection};
use nrpctl::config::Config;
use nrpctl::error::NrpError;
use nrpctl::proxy::{Proxy, ProxySetting, ProxySettingKey, ProxySettingKeyOptional};
use nrpctl::text::{
    bool_to_string, config_backup_path, join_path, parse_bool, parse_u16, str_less, u16_to_string, IntErrorKind,
};
use nrpctl::transaction::{rollback_error, rollback_report, Transaction};

fn sample_config() -> Config {
    let mut c = Config::new(String::from("/etc/nginx/sites"), "/unused");
    c.add(
        String::from("cloud.example.com"),
        80,
        String::from("localhost"),
        8080,
        None,
        None,
    );
    c
}

const RENDERED_PLAIN: &str = "# Managed by nrpctl -- any changes will be overwritten, so do not manually edit
server {
    server_name cloud.example.com;

    listen 80;

    location / {
        proxy_pass http://localhost:8080;

        proxy_set_header Host $http_host;
        proxy_set_header X-Real-IP $remote_addr;
        proxy_set_header X-Forwarded-For $proxy_add_x_forwarded_for;
        proxy_set_header X-Forwarded-Proto $scheme;
        proxy_redirect off;
    }

    fastcgi_request_buffering off;
    
}
";

#[test]
fn render_plain_proxy() {
    let c = sample_config();
    assert_eq!(c.render("cloud.example.com").unwrap(), RENDERED_PLAIN);
}

#[test]
fn render_with_gzip_and_body_size() {
    let mut p = Proxy::new(443, String::from("10.0.0.2"), 65535, Some(true));
    p.client_max_body_size = Some(String::from("512m"));
    let out = p.render("a.b");
    assert!(out.starts_with("# Managed by nrpctl"));
    assert!(out.contains("    server_name a.b;\n\n    listen 443;\n\n    gzip on;\n"));
    assert!(out.contains("    gzip_vary on;\n\n    location / {\n        proxy_pass http://10.0.0.2:65535;\n"));
    assert!(out.ends_with("    fastcgi_request_buffering off;\n    client_max_body_size 512m;\n}\n"));
}

#[test]
fn render_disabled_is_comment() {
    let mut c = sample_config();
    assert_eq!(c.disable("cloud.example.com").unwrap(), false);
    assert_eq!(c.render("cloud.example.com").unwrap(), "\n# cloud.example.com disabled\n");
    assert_eq!(c.disable("cloud.example.com").unwrap(), true);
    assert_eq!(c.enable("cloud.example.com").unwrap(), true);
    assert_eq!(c.render("cloud.example.com").unwrap(), RENDERED_PLAIN);
    assert_eq!(c.enable("cloud.example.com").unwrap(), false);
}

#[test]
fn missing_domain_is_refused() {
    let mut c = sample_config();
    for r in [c.render("nope.example.com").err(), c.get_key("nope.example.com", ProxySettingKey::Gzip).err()] {
        match r {
            Some(NrpError::ProxyNotFound(d)) => assert_eq!(d, "nope.example.com"),
            _ => panic!("expected ProxyNotFound"),
        }
    }
    let e = c.disable("nope.example.com").unwrap_err();
    assert_eq!(e.message(), "Failed to find proxy for the given domain: nope.example.com");
    assert!(c.enable("nope.example.com").is_err());
    assert!(c.set_key("nope.example.com", ProxySettingKey::Gzip, String::from("true")).is_err());
    assert!(c.unset_key("nope.example.com", ProxySettingKeyOptional::Gzip).is_err());
    assert_eq!(c.render_all().len(), 1);
}

#[test]
fn add_replaces_and_reports() {
    let mut c = sample_config();
    assert!(c.add(String::from("cloud.example.com"), 81, String::from("h"), 1, None, Some(true)));
    match c.get_key("cloud.example.com", ProxySettingKey::ListenPort).unwrap() {
        ProxySetting::ListenPort(p) => assert_eq!(p, 81),
        _ => panic!(),
    }
    assert!(!c.add(String::from("a.example.com"), 80, String::from("h"), 2, Some(String::from("1m")), None));
    match c.get_key("a.example.com", ProxySettingKey::ClientMaxBodySize).unwrap() {
        ProxySetting::ClientMaxBodySize(Some(s)) => assert_eq!(s, "1m"),
        _ => panic!(),
    }
    assert_eq!(c.entries().len(), 2);
}

#[test]
fn render_all_in_domain_order() {
    let mut c = Config::new(String::from("/d"), "/");
    for d in ["zeta.org", "alpha.org", "mid.org", "Alpha.org"] {
        c.add(String::from(d), 80, String::from("localhost"), 1, None, None);
    }
    c.disable("mid.org").unwrap();
    let all = c.render_all();
    let domains: Vec<&str> = c.entries().iter().map(|(d, _)| d.as_str()).collect();
    assert_eq!(domains, vec!["Alpha.org", "alpha.org", "mid.org", "zeta.org"]);
    assert_eq!(all.len(), 4);
    for (i, d) in domains.iter().enumerate() {
        assert_eq!(all[i], c.render(d).unwrap());
    }
    assert_eq!(all[2], "\n# mid.org disabled\n");
}

#[test]
fn remove_reports_presence() {
    let mut c = sample_config();
    assert!(c.remove("cloud.example.com"));
    assert!(!c.remove("cloud.example.com"));
    assert!(c.render("cloud.example.com").is_err());
    assert!(c.render_all().is_empty());
}

#[test]
fn set_then_get_returns_setting() {
    let mut c = sample_config();
    let s = c.set_key("cloud.example.com", ProxySettingKey::DestPort, String::from("+9000")).unwrap();
    assert_eq!(s.to_string(), "\"dest-port\" = 9000");
    assert_eq!(c.get_key("cloud.example.com", ProxySettingKey::DestPort).unwrap().to_string(), "\"dest-port\" = 9000");
    let s = c.set_key("cloud.example.com", ProxySettingKey::DestDomain, String::from("backend")).unwrap();
    assert_eq!(s.to_string(), "\"dest-domain\" = \"backend\"");
    let s = c.set_key("cloud.example.com", ProxySettingKey::Gzip, String::from("false")).unwrap();
    assert_eq!(s.to_string(), "\"gzip\" = false");
    let s = c.set_key("cloud.example.com", ProxySettingKey::ClientMaxBodySize, String::from("2g")).unwrap();
    assert_eq!(s.to_string(), "\"client-max-body-size\" = \"2g\"");
    assert!(c.render("cloud.example.com").unwrap().contains("\n    client_max_body_size 2g;\n}\n"));
    let s = c.set_key("cloud.example.com", ProxySettingKey::Disabled, String::from("true")).unwrap();
    assert_eq!(s.to_string(), "\"disabled\" = true");
    assert_eq!(c.render("cloud.example.com").unwrap(), "\n# cloud.example.com disabled\n");
}

#[test]
fn set_with_bad_value_changes_nothing() {
    let mut c = sample_config();
    let e = c.set_key("cloud.example.com", ProxySettingKey::ListenPort, String::from("70000")).unwrap_err();
    assert!(matches!(e, NrpError::BadListenPort(_, IntErrorKind::PosOverflow)));
    assert_eq!(e.message(), "Failed to parse value as listen port: {value}");
    assert_eq!(e.chain(), vec!["Failed to parse value as listen port: {value}", "number too large to fit in target type"]);
    let e = c.set_key("cloud.example.com", ProxySettingKey::DestPort, String::from("")).unwrap_err();
    assert!(matches!(e, NrpError::BadDestPort(_, IntErrorKind::Empty)));
    assert_eq!(e.chain(), vec!["Failed to parse value as destination port: {value}", "cannot parse integer from empty string"]);
    let e = c.set_key("cloud.example.com", ProxySettingKey::DestPort, String::from("8o")).unwrap_err();
    assert!(matches!(e, NrpError::BadDestPort(ref v, IntErrorKind::InvalidDigit) if v == "8o"));
    let e = c.set_key("cloud.example.com", ProxySettingKey::Gzip, String::from("yes")).unwrap_err();
    assert!(matches!(e, NrpError::BadBool(_)));
    assert_eq!(e.chain(), vec!["Failed to parse value as boolean: {value}", "provided string was not `true` or `false`"]);
    assert_eq!(c.render("cloud.example.com").unwrap(), RENDERED_PLAIN);
}

#[test]
fn unset_returns_previous_and_clears() {
    let mut c = sample_config();
    c.set_key("cloud.example.com", ProxySettingKey::Gzip, String::from("true")).unwrap();
    let prev = c.unset_key("cloud.example.com", ProxySettingKeyOptional::Gzip).unwrap();
    assert_eq!(prev.to_string(), "\"gzip\" = true");
    let now = c.get_key("cloud.example.com", ProxySettingKey::Gzip).unwrap();
    assert_eq!(now.to_string(), "# \"gzip\" is unset");
    let prev = c.unset_key("cloud.example.com", ProxySettingKeyOptional::ClientMaxBodySize).unwrap();
    assert_eq!(prev.to_string(), "# \"client-max-body-size\" is unset");
    let prev = c.unset_key("cloud.example.com", ProxySettingKeyOptional::Disabled).unwrap();
    assert_eq!(prev.to_string(), "# \"disabled\" is unset");
    assert_eq!(c.render("cloud.example.com").unwrap(), RENDERED_PLAIN);
}

#[test]
fn proxy_methods_directly() {
    let mut p = Proxy::new(80, String::from("x"), 1, None);
    assert!(!p.disable());
    assert!(p.enable());
    assert_eq!(p.disabled, None);
    let s = p.set_key(ProxySettingKey::ListenPort, String::from("8080")).unwrap();
    assert_eq!(s.to_string(), "\"listen-port\" = 8080");
    assert_eq!(p.listen_port, 8080);
    assert!(p.set_key(ProxySettingKey::ListenPort, String::from("-1")).is_err());
    assert_eq!(p.listen_port, 8080);
    match p.get_key(ProxySettingKey::DestDomain) {
        ProxySetting::DestDomain(d) => assert_eq!(d, "x"),
        _ => panic!(),
    }
    let s = p.unset_key(ProxySettingKeyOptional::Disabled);
    assert_eq!(s.to_string(), "# \"disabled\" is unset");
}

#[test]
fn key_names_and_listing() {
    assert_eq!(ProxySettingKeyOptional::ClientMaxBodySize.to_string(), "client-max-body-size");
    assert_eq!(ProxySettingKeyOptional::Disabled.to_string(), "disabled");
    assert_eq!(ProxySettingKeyOptional::Gzip.to_string(), "gzip");
    let all = ProxySettingKey::all();
    assert_eq!(all.len(), 6);
    assert_eq!(all[0], ProxySettingKey::ListenPort);
    assert_eq!(all[5], ProxySettingKey::Gzip);
}

#[test]
fn port_parsing_follows_std() {
    for s in ["0", "80", "+443", "65535", "007", "", "+", "-", "-1", "65536", "99999x", "x99999", "12 ", " 1"] {
        let expected: Result<u16, _> = s.parse::<u16>();
        let got = parse_u16(s);
        match (expected, got) {
            (Ok(a), Ok(b)) => assert_eq!(a, b, "{s}"),
            (Err(e), Err(k)) => {
                let want = match e.kind() {
                    std::num::IntErrorKind::Empty => IntErrorKind::Empty,
                    std::num::IntErrorKind::InvalidDigit => IntErrorKind::InvalidDigit,
                    std::num::IntErrorKind::PosOverflow => IntErrorKind::PosOverflow,
                    _ => panic!(),
                };
                assert_eq!(want, k, "{s}");
            }
            _ => panic!("disagreement on {s:?}"),
        }
    }
}

#[test]
fn decimal_roundtrip() {
    for n in [0u16, 1, 9, 10, 99, 100, 443, 8080, 65535] {
        let s = u16_to_string(n);
        assert_eq!(s, n.to_string());
        assert_eq!(parse_u16(&s), Ok(n));
    }
}

#[test]
fn bool_parsing_and_roundtrip() {
    assert_eq!(parse_bool("true"), Some(true));
    assert_eq!(parse_bool("false"), Some(false));
    assert_eq!(parse_bool("True"), None);
    assert_eq!(parse_bool(""), None);
    for b in [true, false] {
        assert_eq!(parse_bool(&bool_to_string(b)), Some(b));
    }
}

#[test]
fn ssl_selection_names() {
    for s in [SSLSelection::False, SSLSelection::NoRedirect, SSLSelection::Redirect] {
        assert_eq!(SSLSelection::from_str(&s.to_string()).unwrap(), s);
    }
    assert_eq!(SSLSelection::NoRedirect.to_string(), "no-redirect");
    assert!(!SSLSelection::False.is_true());
    assert!(SSLSelection::NoRedirect.is_true());
    assert!(SSLSelection::Redirect.is_true());
    let e = SSLSelection::from_str("on").unwrap_err();
    assert_eq!(e.message(), "Matching variant not found; expected one of: [false, no-redirect, redirect]");
}

#[test]
fn certificate_paths() {
    let (c, k) = ssl_certificate_paths("a.example.com");
    assert_eq!(c, "/etc/letsencrypt/live/a.example.com/fullchain.pem");
    assert_eq!(k, "/etc/letsencrypt/live/a.example.com/privkey.pem");
}

#[test]
fn paths_join_like_std() {
    for (b, p) in [("/etc/nginx", "a.com"), ("/etc/nginx/", "a.com"), ("", "a.com"), ("/x", "/abs"), ("/x", "")] {
        assert_eq!(join_path(b, p), Path::new(b).join(p).to_str().unwrap());
    }
    let c = Config::new(String::from("sites"), "/home/me");
    assert_eq!(c.sites_enabled_dir(), "/home/me/sites");
    let c = Config::new(String::from("/srv/sites"), "/home/me");
    assert_eq!(c.sites_enabled_dir(), "/srv/sites");
    assert_eq!(c.site_config_path("a.com"), "/srv/sites/a.com");
}

#[test]
fn string_order_matches_std() {
    let words = ["", "a", "b", "ab", "aa", "Z", "é", "e", "ee"];
    for a in words {
        for b in words {
            assert_eq!(str_less(a, b), a < b, "{a:?} {b:?}");
        }
    }
}

#[test]
fn transaction_rolls_back_newest_first() {
    let mut t: Transaction<u32> = Transaction::new();
    assert!(t.do_or_rollback::<&str>(Ok(1)).is_ok());
    assert!(t.do_or_rollback::<&str>(Ok(2)).is_ok());
    assert!(t.do_or_rollback::<&str>(Ok(3)).is_ok());
    let rb = t.do_or_rollback(Err("boom")).err().unwrap();
    assert_eq!(rb.cause, "boom");
    assert_eq!(rb.undo, vec![3, 2, 1]);
    let rb = t.do_or_rollback(Err("again")).err().unwrap();
    assert!(rb.undo.is_empty());
}

#[test]
fn setting_display_is_toml() {
    let s = ProxySetting::ClientMaxBodySize(Some(String::from("512m")));
    assert_eq!(s.to_string(), r#""client-max-body-size" = "512m""#);
    let line = s.to_string();
    let (key, value) = line.split_once(" = ").unwrap();
    assert_eq!(key, "\"client-max-body-size\"");
    assert_eq!(value, "\"512m\"");
}

#[test]
fn backup_path_like_std() {
    for p in [
        "config.toml", "/etc/nrpctl/config.toml", "config", ".config", "a.b.c", "dir/", "a/b.toml/",
        "a/.", ".", "..", "a/..", "/", "", "./", "x/.hidden", "a.", "..a", "/a//b.c", "d.d/file",
        "a/b.c/.", "./a.b", "a..b", "/x/y.z/", "...", ".a.b", "x/..b", "x.y/..", "ab.cd//",
    ] {
        let path = Path::new(p);
        let ext = path
            .extension()
            .map_or(String::from("bak"), |e| format!("{}.bak", e.to_str().unwrap()));
        let expected = path.with_extension(&ext);
        assert_eq!(config_backup_path(p), expected.to_str().unwrap(), "{p:?}");
    }
    assert_eq!(config_backup_path("/etc/nrpctl/config.toml"), "/etc/nrpctl/config.toml.bak");
    assert_eq!(config_backup_path("config"), "config.bak");
}

#[test]
fn ssl_redirect_moves_port() {
    assert_eq!(listen_port_for_ssl(Some(SSLSelection::Redirect), 80), 443);
    assert_eq!(listen_port_for_ssl(Some(SSLSelection::Redirect), 8080), 8080);
    assert_eq!(listen_port_for_ssl(Some(SSLSelection::NoRedirect), 80), 80);
    assert_eq!(listen_port_for_ssl(None, 80), 80);
}

#[test]
fn rollback_error_keeps_cause_and_adds_failures() {
    let cause = vec![String::from("write failed"), String::from("disk full")];
    let clean: Vec<Result<String, Vec<String>>> = vec![Ok(String::from("Reloaded nginx")), Ok(String::new())];
    assert!(rollback_error(cause.clone(), &clean).is_none());
    assert_eq!(rollback_report(&clean), vec![String::from("Reloaded nginx"), String::new()]);
    let mixed: Vec<Result<String, Vec<String>>> = vec![
        Err(vec![String::from("restore a"), String::from("denied")]),
        Ok(String::from("Reloaded nginx")),
        Err(vec![String::from("restore b")]),
    ];
    assert_eq!(
        rollback_error(cause, &mixed).unwrap(),
        vec!["write failed", "disk full", "restore a", "denied", "restore b"]
    );
    assert_eq!(rollback_report(&mixed), vec![String::from("Reloaded nginx")]);
}
