use kvtable::client_kdf::ClientKdf;
use kvtable::connect::{
    fdb_cluster_file, guess_type, rdb_base_keyspace, start_runner, stop_runner, DbConnType,
    EnabledBackends, FdbConfig, PathProbe, RunnerState,
};
use kvtable::error::DbConnError;
use kvtable::keyspace::KvKeyspace;

fn all_enabled() -> EnabledBackends {
    EnabledBackends { fdb: true, rdb: true, mysql: true, pgsql: true, sqlite: true }
}

fn no_probe() -> PathProbe {
    PathProbe { is_dir: false, has_cluster_extension: false }
}

#[test]
fn mysql_scheme_selects_mysql() {
    let t = guess_type("mysql://db/x", &no_probe(), &all_enabled()).unwrap();
    assert_eq!(t, DbConnType::Mysql);
}

#[test]
fn postgres_schemes_select_pgsql() {
    let e = all_enabled();
    assert_eq!(guess_type("postgresql://h/db", &no_probe(), &e).unwrap(), DbConnType::Pgsql);
    assert_eq!(guess_type("postgres://h/db", &no_probe(), &e).unwrap(), DbConnType::Pgsql);
}

#[test]
fn directory_selects_embedded_store() {
    let probe = PathProbe { is_dir: true, has_cluster_extension: false };
    assert_eq!(guess_type("/var/data", &probe, &all_enabled()).unwrap(), DbConnType::Rdb);
}

#[test]
fn cluster_file_selects_distributed_store() {
    let probe = PathProbe { is_dir: false, has_cluster_extension: true };
    assert_eq!(guess_type("/etc/fdb.cluster", &probe, &all_enabled()).unwrap(), DbConnType::Fdb);
}

#[test]
fn anything_else_falls_back_to_sqlite() {
    assert_eq!(guess_type("data.db", &no_probe(), &all_enabled()).unwrap(), DbConnType::Sqlite);
}

#[test]
fn disabled_backend_is_rejected() {
    let mut e = all_enabled();
    e.mysql = false;
    let r = guess_type("mysql://db/x", &no_probe(), &e);
    assert!(matches!(r, Err(DbConnError::DbDisabled(DbConnType::Mysql, _))));
}

#[test]
fn base_keyspace_carries_name_and_schema_version() {
    let ks = rdb_base_keyspace("vw");
    assert_eq!(ks.as_bytes(), &[0x76, 0x77, 0x1f, 0x76, 0x32, 0x1f]);
}

#[test]
fn start_is_idempotent_while_running() {
    assert!(start_runner(&RunnerState::Running).is_ok());
    assert!(start_runner(&RunnerState::Running).is_ok());
}

#[test]
fn start_after_stop_is_an_error() {
    let r = start_runner(&RunnerState::Stopped);
    assert!(matches!(r, Err(DbConnError::StartError(_))));
}

#[test]
fn stop_once_then_stop_again_is_an_error() {
    let mut state = RunnerState::Running;
    assert!(stop_runner(&mut state).is_ok());
    let r = stop_runner(&mut state);
    assert!(matches!(r, Err(DbConnError::StopError(_))));
}

fn fdb_config(path: &str) -> FdbConfig {
    FdbConfig {
        cluster_path: path.to_string(),
        base_subspace: "vw".to_string(),
        max_repeat: 5,
        trx_timeout_millis: 3000,
    }
}

#[test]
fn cluster_file_strips_scheme_prefix() {
    let p = fdb_cluster_file(&fdb_config("fdb:/etc/fdb.cluster"), true).unwrap();
    assert_eq!(p, "/etc/fdb.cluster");
}

#[test]
fn cluster_file_without_scheme_is_kept() {
    let p = fdb_cluster_file(&fdb_config("/etc/fdb.cluster"), true).unwrap();
    assert_eq!(p, "/etc/fdb.cluster");
}

#[test]
fn missing_cluster_file_fails_to_establish() {
    let r = fdb_cluster_file(&fdb_config("fdb:/nowhere.cluster"), false);
    assert!(matches!(r, Err(DbConnError::EstablishFail(_))));
}

#[test]
fn default_client_kdf() {
    assert_eq!(ClientKdf::default(), ClientKdf::Pkbdf2 { iterations: 600000 });
}
