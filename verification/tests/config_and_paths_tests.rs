use cpcm::config::Config;
use cpcm::error_types::PathsError;
use cpcm::global_paths::{
    get_cpcm_datadir, get_cpcm_default_datadir, CfgPath, GlobalPaths, PathType,
};

#[test]
fn config_default_names() {
    let c = Config::default();
    assert_eq!(c.tabname_domain(), "domains");
    assert_eq!(c.tabname_server(), "servers");
}

#[test]
fn config_from_partial_fills_defaults() {
    let c = Config::from_partial(None, None);
    assert_eq!(c.tabname_domain(), "domains");
    assert_eq!(c.tabname_server(), "servers");
    let c = Config::from_partial(Some("doms".to_string()), None);
    assert_eq!(c.tabname_domain(), "doms");
    assert_eq!(c.tabname_server(), "servers");
    let c = Config::from_partial(None, Some("hosts".to_string()));
    assert_eq!(c.tabname_domain(), "domains");
    assert_eq!(c.tabname_server(), "hosts");
}

#[test]
fn get_paths_lays_out_the_data_directory() {
    let p = GlobalPaths::get_paths("/home/op/.cpcm".to_string());
    assert_eq!(p.datadir(), "/home/op/.cpcm");
    assert_eq!(p.configfile(), "/home/op/.cpcm/config.json");
    assert_eq!(p.dbfile(), "/home/op/.cpcm/cpcm.db");
    assert_eq!(p.cpcmlockfile.path, "/home/op/.cpcm/.cpcm-lock");
    assert!(matches!(p.cpcmdatadir.ptype, PathType::Directory));
    assert!(matches!(p.cpcmconfig.ptype, PathType::File));
}

#[test]
fn checkpaths_reports_missing_paths_in_order() {
    let p = GlobalPaths::get_paths("/data".to_string());
    assert!(p.checkpaths(&vec![true, true, true]).is_ok());
    let e = p.checkpaths(&vec![false, true, false]).unwrap_err();
    let missing: Vec<String> = e.missingpaths.iter().map(|c| c.path.clone()).collect();
    assert_eq!(missing, vec!["/data".to_string(), "/data/config.json".to_string()]);
}

#[test]
fn dirs_to_create_keeps_directories_only() {
    let p = GlobalPaths::get_paths("/data".to_string());
    let e = p.checkpaths(&vec![false, false, false]).unwrap_err();
    let dirs = GlobalPaths::dirs_to_create(&e);
    assert_eq!(dirs.len(), 1);
    assert_eq!(dirs[0].path, "/data");
    assert!(matches!(dirs[0].ptype, PathType::Directory));
}

#[test]
fn as_array_exposes_the_three_required_paths() {
    let p = GlobalPaths::get_paths("/data".to_string());
    let a = p.as_array();
    assert_eq!(a.len(), 3);
    assert_eq!(a[0].path, "/data");
    assert_eq!(a[1].path, "/data/cpcm.db");
    assert_eq!(a[2].path, "/data/config.json");
}

#[test]
fn datadir_resolution_prefers_the_environment() {
    let r = get_cpcm_datadir(Some(" /srv/cpcm ".to_string()), Some("/home/op".to_string()));
    assert_eq!(r.unwrap(), "/srv/cpcm");
}

#[test]
fn datadir_resolution_rejects_relative_paths() {
    let r = get_cpcm_datadir(Some("data/here".to_string()), Some("/home/op".to_string()));
    assert_eq!(
        r.unwrap_err(),
        "Cannot use data/here as data dir, found relative path."
    );
}

#[test]
fn datadir_resolution_falls_back_to_home() {
    let r = get_cpcm_datadir(Some("   ".to_string()), Some("/home/op".to_string()));
    assert_eq!(r.unwrap(), "/home/op/.cpcm");
    let r = get_cpcm_datadir(None, Some("/home/op".to_string()));
    assert_eq!(r.unwrap(), "/home/op/.cpcm");
}

#[test]
fn datadir_resolution_requires_a_home_directory() {
    let r = get_cpcm_default_datadir(None);
    assert_eq!(r.unwrap_err(), "Unable to find user's home directory");
    let r = get_cpcm_default_datadir(Some("relative-home".to_string()));
    assert_eq!(
        r.unwrap_err(),
        "System did not return a valid home directory path relative-home/.cpcm"
    );
}

#[test]
fn paths_error_message_lists_paths() {
    let e = PathsError {
        missingpaths: vec![
            CfgPath { ptype: PathType::Directory, path: "/data".to_string() },
            CfgPath { ptype: PathType::File, path: "/data/cpcm.db".to_string() },
        ],
    };
    assert_eq!(
        e.message(),
        "Following paths do not exist.- /data- /data/cpcm.db"
    );
}
