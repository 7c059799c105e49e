use hoover::config::{
    chunking_is_valid, expand_path, expand_path_with, AudioConfig, SttConfig, UdpConfig, VcsConfig,
};

#[test]
fn defaults() {
    let a = AudioConfig::default();
    assert_eq!(a.chunk_duration_secs, 30);
    assert_eq!(a.overlap_secs, 5);
    assert!(chunking_is_valid(&a));
    let s = SttConfig::default();
    assert_eq!(s.backend, "whisper");
    assert_eq!(s.language, "en");
    assert_eq!(s.openai_model, "whisper-1");
    let u = UdpConfig::default();
    assert_eq!(u.bind, "0.0.0.0:9700");
    assert_eq!(u.backlog, 1000);
    assert_eq!(u.firewall.backend, "firewalld");
    assert_eq!(u.firewall.block_duration_secs, 3600);
    assert_eq!(VcsConfig::default().remote, "origin");
}

#[test]
fn invalid_chunking_rejected() {
    let a = AudioConfig { device: None, chunk_duration_secs: 5, overlap_secs: 5 };
    assert!(!chunking_is_valid(&a));
}

#[test]
fn expand_tilde_against_home() {
    assert_eq!(expand_path_with("~/hoover", Some("/home/u".to_string())), "/home/u/hoover");
    assert_eq!(expand_path_with("~/hoover", None), "~/hoover");
    assert_eq!(expand_path_with("/abs/x", Some("/home/u".to_string())), "/abs/x");
}

#[test]
fn expand_tilde_path() {
    let expanded = expand_path("~/hoover");
    assert!(!expanded.starts_with('~'));
}
