use da::config::{default_port, default_true, expand_tilde, expand_tilde_with, Auth, Build, Config, Deploy};
use std::path::PathBuf;

fn sample(auth: Auth) -> Config {
    Config {
        host: "1.2.3.4".into(),
        port: 22,
        user: "ubuntu".into(),
        auth,
        build: Build {
            command: "npm run build".into(),
            output_dir: "dist".into(),
        },
        deploy: Deploy {
            remote_dir: "/var/www/app".into(),
            clean_remote: true,
        },
    }
}

#[test]
fn expand_tilde_replaces_home() {
    let home = dirs::home_dir().unwrap();
    let expanded = expand_tilde("~/.ssh/me.pem");
    assert_eq!(PathBuf::from(expanded), home.join(".ssh/me.pem"));
}

#[test]
fn expand_tilde_passthrough_absolute() {
    assert_eq!(PathBuf::from(expand_tilde("/abs/path")), PathBuf::from("/abs/path"));
}

#[test]
fn expand_tilde_with_given_home() {
    assert_eq!(expand_tilde_with("~/k.pem", Some("/home/a")), "/home/a/k.pem");
    assert_eq!(expand_tilde_with("~/k.pem", Some("/home/a/")), "/home/a/k.pem");
    assert_eq!(expand_tilde_with("~//etc/k", Some("/home/a")), "/etc/k");
    assert_eq!(expand_tilde_with("~/k.pem", None), "~/k.pem");
    assert_eq!(expand_tilde_with("~k.pem", Some("/home/a")), "~k.pem");
    assert_eq!(expand_tilde_with("a/~/k", Some("/home/a")), "a/~/k");
}

#[test]
fn key_path_expanded_only_for_keys() {
    let c = sample(Auth::Password { password: "hunter2".into() });
    assert_eq!(c.key_path_expanded(), None);
    let c = sample(Auth::Key { key_path: "/keys/me.pem".into() });
    assert_eq!(c.key_path_expanded(), Some("/keys/me.pem".to_string()));
}

#[test]
fn target_names_user_host_and_port() {
    let mut c = sample(Auth::Key { key_path: "k".into() });
    assert_eq!(c.target(), "ubuntu@1.2.3.4:22");
    c.port = 65535;
    assert_eq!(c.target(), "ubuntu@1.2.3.4:65535");
    c.port = 0;
    assert_eq!(c.target(), "ubuntu@1.2.3.4:0");
}

#[test]
fn defaults() {
    assert_eq!(default_port(), 22);
    assert!(default_true());
}
