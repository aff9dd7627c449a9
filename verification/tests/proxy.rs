use nebula_nomad::proxy::{
    authorize_upgrade, execute_upgrade, get_admin, get_upgrade_history, get_version, initialize,
    rollback_upgrade, run_migration, PendingUpgrade, ProxyEnv, ProxyError, ProxyEvent, UpgradeRecord,
};
use nebula_nomad::values::{Address, Hash32};

fn addr(tag: u8) -> Address {
    let mut strkey = [b'B'; 56];
    strkey[0] = b'G';
    strkey[55] = tag;
    Address { strkey }
}

fn contract() -> Address {
    let mut strkey = [b'C'; 56];
    strkey[55] = b'1';
    Address { strkey }
}

fn hash(tag: u8) -> Hash32 {
    Hash32 { bytes: [tag; 32] }
}

fn fresh_env() -> ProxyEnv {
    ProxyEnv {
        admin: None,
        version: None,
        previous_wasm_hash: None,
        previous_version: None,
        pending_upgrade: None,
        migration_step: None,
        upgrade_history: None,
        ledger_sequence: 100,
        contract_address: contract(),
        running_wasm: Some(hash(0)),
        installed_wasm: Vec::new(),
        events: Vec::new(),
        auths: Vec::new(),
    }
}

fn initialized_env() -> ProxyEnv {
    let mut env = fresh_env();
    initialize(&mut env, addr(1)).unwrap();
    env
}

#[test]
fn proxy_error_codes() {
    assert_eq!(ProxyError::NotAdmin.code(), 1);
    assert_eq!(ProxyError::AlreadyInitialized.code(), 2);
    assert_eq!(ProxyError::NoPendingUpgrade.code(), 3);
    assert_eq!(ProxyError::MigrationInProgress.code(), 4);
    assert_eq!(ProxyError::NoRollbackTarget.code(), 5);
    assert_eq!(ProxyError::NotInitialized.code(), 6);
}

#[test]
fn uninitialized_proxy() {
    let mut env = fresh_env();
    assert_eq!(get_admin(&env), Err(ProxyError::NotInitialized));
    assert_eq!(get_version(&env), 1);
    assert!(get_upgrade_history(&env).is_empty());
    assert_eq!(authorize_upgrade(&mut env, &addr(1), hash(1)), Err(ProxyError::NotInitialized));
    assert_eq!(execute_upgrade(&mut env, &addr(1)), Err(ProxyError::NotInitialized));
    assert_eq!(rollback_upgrade(&mut env, &addr(1)), Err(ProxyError::NotInitialized));
    assert_eq!(run_migration(&mut env, &addr(1), 10), Err(ProxyError::NotInitialized));
    assert!(env.auths.is_empty());
    assert!(env.events.is_empty());
}

#[test]
fn initialize_records_admin_once() {
    let mut env = fresh_env();
    assert_eq!(initialize(&mut env, addr(1)), Ok(()));
    assert_eq!(get_admin(&env), Ok(addr(1)));
    assert_eq!(get_version(&env), 1);
    assert_eq!(env.events, vec![ProxyEvent::Initialized { admin: addr(1), version: 1 }]);
    assert_eq!(env.auths, vec![addr(1)]);

    assert_eq!(initialize(&mut env, addr(2)), Err(ProxyError::AlreadyInitialized));
    assert_eq!(get_admin(&env), Ok(addr(1)));
    assert_eq!(env.events.len(), 1);
    assert_eq!(env.auths, vec![addr(1), addr(2)]);
}

#[test]
fn non_admin_callers_are_refused() {
    let mut env = initialized_env();
    authorize_upgrade(&mut env, &addr(1), hash(7)).unwrap();
    let pending = env.pending_upgrade;
    let events = env.events.len();
    assert_eq!(authorize_upgrade(&mut env, &addr(2), hash(9)), Err(ProxyError::NotAdmin));
    assert_eq!(execute_upgrade(&mut env, &addr(2)), Err(ProxyError::NotAdmin));
    assert_eq!(rollback_upgrade(&mut env, &addr(2)), Err(ProxyError::NotAdmin));
    assert_eq!(run_migration(&mut env, &addr(2), 5), Err(ProxyError::NotAdmin));
    assert_eq!(env.pending_upgrade, pending);
    assert_eq!(get_version(&env), 1);
    assert!(env.installed_wasm.is_empty());
    assert_eq!(env.events.len(), events);
    // The caller's authorization was demanded each time.
    assert_eq!(env.auths[2..].to_vec(), vec![addr(2), addr(2), addr(2), addr(2)]);
}

#[test]
fn execute_needs_a_pending_upgrade() {
    let mut env = initialized_env();
    assert_eq!(execute_upgrade(&mut env, &addr(1)), Err(ProxyError::NoPendingUpgrade));
    assert_eq!(get_version(&env), 1);
    assert!(env.installed_wasm.is_empty());
}

#[test]
fn authorize_then_execute() {
    let mut env = initialized_env();
    assert_eq!(authorize_upgrade(&mut env, &addr(1), hash(7)), Ok(()));
    assert_eq!(env.pending_upgrade, Some(PendingUpgrade { new_wasm_hash: hash(7), authorized_at: 100 }));
    env.ledger_sequence = 120;
    assert_eq!(execute_upgrade(&mut env, &addr(1)), Ok(2));
    assert_eq!(get_version(&env), 2);
    assert_eq!(env.previous_version, Some(1));
    assert_eq!(env.previous_wasm_hash, Some(hash(0)));
    assert_eq!(env.running_wasm, Some(hash(7)));
    assert_eq!(env.pending_upgrade, None);
    assert_eq!(env.installed_wasm, vec![hash(7)]);
    assert_eq!(
        get_upgrade_history(&env),
        vec![UpgradeRecord { version: 2, wasm_hash: hash(7), upgraded_at: 120 }]
    );
    assert_eq!(
        env.events[1..].to_vec(),
        vec![
            ProxyEvent::UpgradeAuthorized { admin: addr(1), new_wasm_hash: hash(7), ledger_sequence: 100 },
            ProxyEvent::Upgraded { admin: addr(1), old_version: 1, new_version: 2, wasm_hash: hash(7) },
        ]
    );
    assert_eq!(env.auths, vec![addr(1), addr(1), addr(1)]);
    // The proposal was consumed.
    assert_eq!(execute_upgrade(&mut env, &addr(1)), Err(ProxyError::NoPendingUpgrade));
}

#[test]
fn rollback_needs_a_kept_wasm() {
    let mut env = initialized_env();
    assert_eq!(rollback_upgrade(&mut env, &addr(1)), Err(ProxyError::NoRollbackTarget));
    // With the running Wasm unknown, the first upgrade keeps nothing to go back to.
    env.running_wasm = None;
    authorize_upgrade(&mut env, &addr(1), hash(7)).unwrap();
    execute_upgrade(&mut env, &addr(1)).unwrap();
    assert_eq!(env.previous_wasm_hash, None);
    assert_eq!(rollback_upgrade(&mut env, &addr(1)), Err(ProxyError::NoRollbackTarget));
    assert_eq!(get_version(&env), 2);
    assert_eq!(env.installed_wasm, vec![hash(7)]);
}

#[test]
fn rollback_after_the_first_upgrade() {
    let mut env = initialized_env();
    authorize_upgrade(&mut env, &addr(1), hash(7)).unwrap();
    assert_eq!(execute_upgrade(&mut env, &addr(1)), Ok(2));
    assert_eq!(rollback_upgrade(&mut env, &addr(1)), Ok(1));
    assert_eq!(get_version(&env), 1);
    assert_eq!(env.running_wasm, Some(hash(0)));
    assert_eq!(env.installed_wasm, vec![hash(7), hash(0)]);
    assert_eq!(get_upgrade_history(&env).len(), 1);
    assert_eq!(
        env.events.last(),
        Some(&ProxyEvent::RolledBack { admin: addr(1), from_version: 2, to_version: 1, wasm_hash: hash(0) })
    );
}

#[test]
fn rollback_reinstalls_the_previous_upgrade() {
    let mut env = initialized_env();
    authorize_upgrade(&mut env, &addr(1), hash(7)).unwrap();
    assert_eq!(execute_upgrade(&mut env, &addr(1)), Ok(2));
    authorize_upgrade(&mut env, &addr(1), hash(8)).unwrap();
    assert_eq!(execute_upgrade(&mut env, &addr(1)), Ok(3));
    assert_eq!(env.previous_wasm_hash, Some(hash(7)));
    assert_eq!(rollback_upgrade(&mut env, &addr(1)), Ok(2));
    assert_eq!(get_version(&env), 2);
    assert_eq!(env.installed_wasm, vec![hash(7), hash(8), hash(7)]);
    assert_eq!(get_upgrade_history(&env).len(), 2);
    assert_eq!(
        env.events.last(),
        Some(&ProxyEvent::RolledBack { admin: addr(1), from_version: 3, to_version: 2, wasm_hash: hash(7) })
    );
}

#[test]
fn rollback_never_goes_below_version_one() {
    let mut env = initialized_env();
    env.previous_wasm_hash = Some(hash(3));
    assert_eq!(get_version(&env), 1);
    assert_eq!(rollback_upgrade(&mut env, &addr(1)), Ok(1));
    assert_eq!(get_version(&env), 1);
    assert_eq!(env.installed_wasm, vec![hash(3)]);
    assert_eq!(env.running_wasm, Some(hash(3)));
}

#[test]
fn migration_finishes_in_one_batch() {
    let mut env = initialized_env();
    env.migration_step = Some(4);
    assert_eq!(run_migration(&mut env, &addr(1), 50), Ok(true));
    assert_eq!(env.migration_step, None);
    assert_eq!(
        env.events.last(),
        Some(&ProxyEvent::MigrationComplete { contract: contract(), version: 1 })
    );
    assert_eq!(run_migration(&mut env, &addr(1), 0), Ok(true));
}
