use poa_token_tools::paths::{backup_dest_path, backup_artifact_path, generate_duplicate_file_suffix};
use poa_token_tools::subtoken::Subtoken;

fn target() -> Subtoken {
    Subtoken {
        token_prefix: "ft1".to_string(),
        poa_factory_account: "poa.example.near".to_string(),
    }
}

#[test]
fn canonical_backup_path_is_address_dot_bin() {
    let p = backup_artifact_path("backups", &target());
    assert_eq!(p, "backups/ft1.poa.example.near.bin".to_string());
}

#[test]
fn no_collision_uses_canonical_path() {
    let p = backup_dest_path("backups", &target(), false);
    assert_eq!(p, "backups/ft1.poa.example.near.bin".to_string());
}

#[test]
fn collision_never_reuses_canonical_path() {
    let canonical = backup_artifact_path("backups", &target());
    let p = backup_dest_path("backups", &target(), true);
    assert_ne!(p, canonical);
    assert!(p.starts_with("backups/ft1.poa.example.near_"));
    assert!(p.ends_with(".bin"));
}

#[test]
fn duplicate_suffix_has_timestamp_and_random_part() {
    let s = generate_duplicate_file_suffix();
    // a four-digit-year clock renders exactly 19 timestamp characters
    assert_eq!(s.len(), 26);
    // timestamp, `_`, then six alphanumerics
    let (ts, random) = s.split_at(s.len() - 7);
    assert!(random.starts_with('_'));
    assert_eq!(random.len(), 7);
    assert!(random[1..].chars().all(|c| c.is_ascii_alphanumeric()));
    assert!(ts
        .chars()
        .all(|c| c.is_ascii_digit() || c == '-' || c == '_' || c == '+'));
}
