use poa_token_tools::errors::RunError;
use poa_token_tools::orchestrator::{Action, Event, Orchestrator};
use poa_token_tools::run_options::ReplacePoATokenContractOptions;

fn options() -> ReplacePoATokenContractOptions {
    ReplacePoATokenContractOptions {
        poa_seed_file: "poa-seed.txt".to_string(),
        poa_factory_account_id: "poa.example.near".to_string(),
        tokens_prefixes_list_file: "tokens.txt".to_string(),
        source_account_for_action: "operator.near".to_string(),
        min_required_balance_for_fees: 1_000_000_000_000_000_000_000_000,
        no_one_yocto_for_key_adding: false,
        poa_token_wasm_file: "token.wasm".to_string(),
        poa_tokens_contracts_backup_dir: "backups".to_string(),
    }
}

/// Drives the machine until the backup phase is done and the grant loop is
/// about to begin; returns the machine and the actions seen so far.
fn drive_to_grant_loop(list: &str) -> (Orchestrator, Vec<Action>) {
    let mut o = Orchestrator::new(options()).unwrap();
    let mut actions = Vec::new();
    actions.push(o.step(Event::Begin));
    assert_eq!(*actions.last().unwrap(), Action::CheckWasmFile);
    actions.push(o.step(Event::WasmFileExists { exists: true }));
    assert_eq!(*actions.last().unwrap(), Action::ReadTargetList);
    actions.push(o.step(Event::TargetListIs {
        contents: list.to_string(),
    }));
    assert_eq!(*actions.last().unwrap(), Action::QueryBalance);
    actions.push(o.step(Event::BalanceIs {
        amount: 5_000_000_000_000_000_000_000_000,
    }));
    assert_eq!(*actions.last().unwrap(), Action::EnsureBackupDir);
    let mut a = o.step(Event::BackupDirReady);
    loop {
        match &a {
            Action::CheckBackupPath { .. } => {
                actions.push(a);
                a = o.step(Event::BackupPathExists { exists: false });
            }
            Action::DownloadCode { .. } => {
                actions.push(a);
                a = o.step(Event::CodeSaved);
            }
            Action::DerivePublicKey => {
                actions.push(a);
                break;
            }
            other => panic!("unexpected action during backup: {:?}", other),
        }
    }
    actions.push(o.step(Event::PublicKeyIs {
        key: "ed25519:EXAMPLEKEY".to_string(),
    }));
    assert_eq!(*actions.last().unwrap(), Action::PauseBeforeMutation);
    (o, actions)
}

#[test]
fn happy_path_two_targets() {
    let (mut o, mut actions) = drive_to_grant_loop("ft1\nft2\n");
    // Two backup downloads happened, in target order, before any grant.
    let downloads: Vec<&Action> = actions
        .iter()
        .filter(|a| matches!(a, Action::DownloadCode { .. }))
        .collect();
    assert_eq!(downloads.len(), 2);
    assert!(matches!(downloads[0], Action::DownloadCode { target: 0, dest }
        if dest == "backups/ft1.poa.example.near.bin"));
    assert!(matches!(downloads[1], Action::DownloadCode { target: 1, dest }
        if dest == "backups/ft2.poa.example.near.bin"));
    // Grant loop: grant, deploy, revoke per target, in order, then done.
    actions.push(o.step(Event::Paused));
    assert!(
        matches!(*actions.last().unwrap(), Action::SubmitGrant { target: 0, attach_one_yoctonear: true })
    );
    actions.push(o.step(Event::GrantOk));
    assert!(matches!(*actions.last().unwrap(), Action::SubmitDeploy { target: 0 }));
    actions.push(o.step(Event::DeployOk));
    assert!(matches!(
        *actions.last().unwrap(),
        Action::SubmitRevoke { target: 0, .. }
    ));
    actions.push(o.step(Event::RevokeOk));
    assert!(matches!(
        *actions.last().unwrap(),
        Action::SubmitGrant { target: 1, .. }
    ));
    actions.push(o.step(Event::GrantOk));
    assert!(matches!(*actions.last().unwrap(), Action::SubmitDeploy { target: 1 }));
    actions.push(o.step(Event::DeployOk));
    assert!(matches!(
        *actions.last().unwrap(),
        Action::SubmitRevoke { target: 1, .. }
    ));
    let last = o.step(Event::RevokeOk);
    assert_eq!(last, Action::Finish);
    assert!(o.error.is_none());
}

#[test]
fn insufficient_balance_aborts_before_any_work() {
    let mut o = Orchestrator::new(options()).unwrap();
    assert_eq!(o.step(Event::Begin), Action::CheckWasmFile);
    assert_eq!(
        o.step(Event::WasmFileExists { exists: true }),
        Action::ReadTargetList
    );
    assert_eq!(
        o.step(Event::TargetListIs {
            contents: "ft1\nft2\n".to_string()
        }),
        Action::QueryBalance
    );
    // Half the required minimum: the run stops at the precondition check,
    // before any backup, grant, deploy or revoke was asked for.
    let a = o.step(Event::BalanceIs {
        amount: 500_000_000_000_000_000_000_000,
    });
    assert_eq!(a, Action::Fail);
    assert_eq!(
        o.error,
        Some(RunError::InsufficientBalance {
            have: 500_000_000_000_000_000_000_000,
            need: 1_000_000_000_000_000_000_000_000,
        })
    );
}

#[test]
fn deploy_failure_on_second_target_still_revokes_then_halts() {
    let (mut o, _) = drive_to_grant_loop("ft1\nft2\nft3\n");
    assert!(matches!(o.step(Event::Paused), Action::SubmitGrant { target: 0, .. }));
    assert!(matches!(o.step(Event::GrantOk), Action::SubmitDeploy { target: 0 }));
    assert!(matches!(o.step(Event::DeployOk), Action::SubmitRevoke { target: 0, .. }));
    assert!(matches!(o.step(Event::RevokeOk), Action::SubmitGrant { target: 1, .. }));
    assert!(matches!(o.step(Event::GrantOk), Action::SubmitDeploy { target: 1 }));
    // The deploy fails: the revoke for target 1 is still submitted.
    let a = o.step(Event::DeployFailed);
    assert!(matches!(a, Action::SubmitRevoke { target: 1, .. }));
    // The revoke succeeds, and only then is the failure surfaced; target 2
    // is never granted or deployed.
    let a = o.step(Event::RevokeOk);
    assert_eq!(a, Action::Fail);
    assert_eq!(o.error, Some(RunError::DeployFailed { target: 1 }));
}

#[test]
fn grant_failure_is_fatal_without_deploy() {
    let (mut o, _) = drive_to_grant_loop("ft1\nft2\n");
    assert!(matches!(o.step(Event::Paused), Action::SubmitGrant { target: 0, .. }));
    let a = o.step(Event::GrantFailed);
    assert_eq!(a, Action::Fail);
    assert_eq!(o.error, Some(RunError::GrantFailed { target: 0 }));
}

#[test]
fn revoke_failure_is_fatal() {
    let (mut o, _) = drive_to_grant_loop("ft1\nft2\n");
    assert!(matches!(o.step(Event::Paused), Action::SubmitGrant { target: 0, .. }));
    assert!(matches!(o.step(Event::GrantOk), Action::SubmitDeploy { target: 0 }));
    assert!(matches!(o.step(Event::DeployOk), Action::SubmitRevoke { target: 0, .. }));
    let a = o.step(Event::RevokeFailed);
    assert_eq!(a, Action::Fail);
    assert_eq!(o.error, Some(RunError::RevokeFailed { target: 0 }));
}

#[test]
fn backup_collision_uses_distinct_path() {
    let mut o = Orchestrator::new(options()).unwrap();
    o.step(Event::Begin);
    o.step(Event::WasmFileExists { exists: true });
    o.step(Event::TargetListIs {
        contents: "ft1\n".to_string(),
    });
    o.step(Event::BalanceIs {
        amount: 5_000_000_000_000_000_000_000_000,
    });
    let a = o.step(Event::BackupDirReady);
    let canonical = match &a {
        Action::CheckBackupPath { target: 0, path } => path.clone(),
        other => panic!("unexpected: {:?}", other),
    };
    assert_eq!(canonical, "backups/ft1.poa.example.near.bin");
    // A file already sits at the canonical path: the new download goes to a
    // distinct path that keeps the stem and extension.
    let a = o.step(Event::BackupPathExists { exists: true });
    match &a {
        Action::DownloadCode { target: 0, dest } => {
            assert_ne!(*dest, canonical);
            assert!(dest.starts_with("backups/ft1.poa.example.near_"));
            assert!(dest.ends_with(".bin"));
        }
        other => panic!("unexpected: {:?}", other),
    }
}

#[test]
fn download_failure_aborts_run() {
    let mut o = Orchestrator::new(options()).unwrap();
    o.step(Event::Begin);
    o.step(Event::WasmFileExists { exists: true });
    o.step(Event::TargetListIs {
        contents: "ft1\nft2\n".to_string(),
    });
    o.step(Event::BalanceIs {
        amount: 5_000_000_000_000_000_000_000_000,
    });
    o.step(Event::BackupDirReady);
    o.step(Event::BackupPathExists { exists: false });
    let a = o.step(Event::DownloadFailed);
    assert_eq!(a, Action::Fail);
    assert_eq!(o.error, Some(RunError::BackupFailed { target: 0 }));
}

#[test]
fn invalid_factory_is_rejected_at_construction() {
    let mut opts = options();
    opts.poa_factory_account_id = "two words".to_string();
    match Orchestrator::new(opts) {
        Err(e) => assert_eq!(e, RunError::InvalidFactoryId),
        Ok(_) => panic!("an invalid factory id must be rejected"),
    }
}

#[test]
fn missing_wasm_file_fails_fast() {
    let mut o = Orchestrator::new(options()).unwrap();
    o.step(Event::Begin);
    let a = o.step(Event::WasmFileExists { exists: false });
    assert_eq!(a, Action::Fail);
    assert_eq!(o.error, Some(RunError::MissingWasmFile));
}

#[test]
fn missing_target_list_fails_fast() {
    let mut o = Orchestrator::new(options()).unwrap();
    o.step(Event::Begin);
    o.step(Event::WasmFileExists { exists: true });
    let a = o.step(Event::TargetListMissing);
    assert_eq!(a, Action::Fail);
    assert_eq!(o.error, Some(RunError::MissingTargetList));
}

#[test]
fn bad_target_list_contents_fail_fast() {
    let mut o = Orchestrator::new(options()).unwrap();
    o.step(Event::Begin);
    o.step(Event::WasmFileExists { exists: true });
    let a = o.step(Event::TargetListIs {
        contents: "ft1\nnot a token\n".to_string(),
    });
    assert_eq!(a, Action::Fail);
    assert_eq!(
        o.error,
        Some(RunError::InvalidTargetSpec {
            line: "not a token".to_string()
        })
    );
}

#[test]
fn other_collaborator_failures_are_fatal() {
    let mut o = Orchestrator::new(options()).unwrap();
    o.step(Event::Begin);
    o.step(Event::WasmFileExists { exists: true });
    o.step(Event::TargetListIs {
        contents: "ft1\n".to_string(),
    });
    assert_eq!(o.step(Event::BalanceQueryFailed), Action::Fail);
    assert_eq!(o.error, Some(RunError::BalanceQueryFailed));

    let mut o = Orchestrator::new(options()).unwrap();
    o.step(Event::Begin);
    o.step(Event::WasmFileExists { exists: true });
    o.step(Event::TargetListIs {
        contents: "ft1\n".to_string(),
    });
    o.step(Event::BalanceIs {
        amount: 5_000_000_000_000_000_000_000_000,
    });
    assert_eq!(o.step(Event::BackupDirFailed), Action::Fail);
    assert_eq!(o.error, Some(RunError::BackupDirFailed));

    let mut o = Orchestrator::new(options()).unwrap();
    o.step(Event::Begin);
    o.step(Event::WasmFileExists { exists: true });
    o.step(Event::TargetListIs {
        contents: "ft1\n".to_string(),
    });
    o.step(Event::BalanceIs {
        amount: 5_000_000_000_000_000_000_000_000,
    });
    o.step(Event::BackupDirReady);
    o.step(Event::BackupPathExists { exists: false });
    o.step(Event::CodeSaved);
    assert_eq!(o.step(Event::SeedPhraseInvalid), Action::Fail);
    assert_eq!(o.error, Some(RunError::InvalidSeedPhrase));
}

#[test]
fn empty_target_list_completes_without_mutations() {
    let mut o = Orchestrator::new(options()).unwrap();
    o.step(Event::Begin);
    o.step(Event::WasmFileExists { exists: true });
    o.step(Event::TargetListIs {
        contents: "# nothing\n".to_string(),
    });
    o.step(Event::BalanceIs {
        amount: 5_000_000_000_000_000_000_000_000,
    });
    assert_eq!(o.step(Event::BackupDirReady), Action::DerivePublicKey);
    assert_eq!(
        o.step(Event::PublicKeyIs {
            key: "ed25519:EXAMPLEKEY".to_string()
        }),
        Action::PauseBeforeMutation
    );
    assert_eq!(o.step(Event::Paused), Action::Finish);
    assert!(o.error.is_none());
}

#[test]
fn no_one_yocto_option_controls_fee_attachment() {
    let mut opts = options();
    opts.no_one_yocto_for_key_adding = true;
    let mut o = Orchestrator::new(opts).unwrap();
    o.step(Event::Begin);
    o.step(Event::WasmFileExists { exists: true });
    o.step(Event::TargetListIs {
        contents: "ft1\n".to_string(),
    });
    o.step(Event::BalanceIs {
        amount: 5_000_000_000_000_000_000_000_000,
    });
    o.step(Event::BackupDirReady);
    o.step(Event::BackupPathExists { exists: false });
    o.step(Event::CodeSaved);
    o.step(Event::PublicKeyIs {
        key: "k".to_string(),
    });
    let a = o.step(Event::Paused);
    assert_eq!(
        a,
        Action::SubmitGrant {
            target: 0,
            attach_one_yoctonear: false
        }
    );
}
