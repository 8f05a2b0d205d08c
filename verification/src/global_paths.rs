//! The fixed filesystem layout of the local cache: the data directory and the
//! configuration, database and lock files inside it. Paths are plain strings;
//! the surrounding program tells this module what exists on disk and performs
//! the actual filesystem work.

use vstd::prelude::*;
use crate::error_types::PathsError;
use crate::strutil::{trim_spec, trim_spaces};

verus! {

/// Whether a configured path names a directory or a file.
#[derive(Clone, Copy, PartialEq, Eq, Structural, Debug)]
pub enum PathType {
    Directory,
    File,
}

/// One configured path with its expected kind.
#[derive(Debug)]
pub struct CfgPath {
    pub ptype: PathType,
    pub path: String,
}

/// The mathematical value of a `CfgPath`.
pub ghost struct CfgPathV {
    pub ptype: PathType,
    pub path: Seq<char>,
}

impl View for CfgPath {
    type V = CfgPathV;

    open spec fn view(&self) -> CfgPathV {
        CfgPathV { ptype: self.ptype, path: self.path@ }
    }
}

impl Clone for CfgPath {
    /// An exact copy: the clone has the same view.
    fn clone(&self) -> (r: Self)
        ensures
            r@ == self@,
    {
        CfgPath { ptype: self.ptype, path: self.path.clone() }
    }
}

/// The paths the cache lives in: the data directory, the database file, the
/// lock file and the configuration file.
#[derive(Debug)]
pub struct GlobalPaths {
    pub cpcmdatadir: CfgPath,
    pub cpcmdbfile: CfgPath,
    pub cpcmlockfile: CfgPath,
    pub cpcmconfig: CfgPath,
}

/// A directory and a name joined into one path.
pub open spec fn join_spec(dir: Seq<char>, name: Seq<char>) -> Seq<char> {
    dir + "/"@ + name
}

/// A path is absolute when it starts at the filesystem root.
pub open spec fn is_absolute_spec(p: Seq<char>) -> bool {
    p.len() > 0 && p[0] == '/'
}

fn is_absolute(p: &str) -> (r: bool)
    ensures
        r == is_absolute_spec(p@),
{
    let n = p.unicode_len();
    n > 0 && p.get_char(0) == '/'
}

fn join_path(dir: &String, name: &str) -> (r: String)
    ensures
        r@ == join_spec(dir@, name@),
{
    let r = dir.clone().concat("/").concat(name);
    assert(r@ =~= join_spec(dir@, name@));
    r
}

impl GlobalPaths {
    /// The paths whose existence `checkpaths` examines, in its order: the
    /// data directory, the database file, the configuration file. The lock
    /// file is not required to exist.
    pub fn as_array(&self) -> (r: Vec<CfgPath>)
        ensures
            r@.len() == 3,
            r@[0]@ == self.cpcmdatadir@,
            r@[1]@ == self.cpcmdbfile@,
            r@[2]@ == self.cpcmconfig@,
    {
        let r: Vec<CfgPath> = vec![
            self.cpcmdatadir.clone(),
            self.cpcmdbfile.clone(),
            self.cpcmconfig.clone(),
        ];
        r
    }

    /// Which required paths are missing, given for each entry of `as_array`
    /// whether it exists on disk: all present is success, anything else is a
    /// `PathsError` listing the missing paths in order.
    pub fn checkpaths(&self, exists: &Vec<bool>) -> (r: Result<(), PathsError>)
        requires
            exists@.len() == 3,
        ensures
            r is Ok <==> (exists@[0] && exists@[1] && exists@[2]),
            r is Err ==> r->Err_0.missingpaths@.map_values(|p: CfgPath| p@) == (
            if !exists@[0] {
                seq![self.cpcmdatadir@]
            } else {
                Seq::<CfgPathV>::empty()
            }) + (if !exists@[1] {
                seq![self.cpcmdbfile@]
            } else {
                Seq::<CfgPathV>::empty()
            }) + (if !exists@[2] {
                seq![self.cpcmconfig@]
            } else {
                Seq::<CfgPathV>::empty()
            }),
    {
        let mut missingpaths: Vec<CfgPath> = Vec::new();
        if !exists[0] {
            missingpaths.push(self.cpcmdatadir.clone());
        }
        if !exists[1] {
            missingpaths.push(self.cpcmdbfile.clone());
        }
        if !exists[2] {
            missingpaths.push(self.cpcmconfig.clone());
        }
        if missingpaths.len() == 0 {
            proof {
                assert(exists@[0] && exists@[1] && exists@[2]);
            }
            Ok(())
        } else {
            proof {
                assert(missingpaths@.map_values(|p: CfgPath| p@) =~= (
                if !exists@[0] {
                    seq![self.cpcmdatadir@]
                } else {
                    Seq::<CfgPathV>::empty()
                }) + (if !exists@[1] {
                    seq![self.cpcmdbfile@]
                } else {
                    Seq::<CfgPathV>::empty()
                }) + (if !exists@[2] {
                    seq![self.cpcmconfig@]
                } else {
                    Seq::<CfgPathV>::empty()
                }));
            }
            Err(PathsError { missingpaths })
        }
    }

    /// The database file's path.
    pub fn dbfile(&self) -> (r: String)
        ensures
            r@ == self.cpcmdbfile@.path,
    {
        self.cpcmdbfile.path.clone()
    }

    /// The cache's layout inside `datadir`: `config.json`, `.cpcm-lock` and
    /// `cpcm.db` in the data directory.
    pub fn get_paths(datadir: String) -> (r: GlobalPaths)
        ensures
            r.cpcmdatadir@ == (CfgPathV { ptype: PathType::Directory, path: datadir@ }),
            r.cpcmconfig@ == (CfgPathV {
                ptype: PathType::File,
                path: join_spec(datadir@, "config.json"@),
            }),
            r.cpcmlockfile@ == (CfgPathV {
                ptype: PathType::File,
                path: join_spec(datadir@, ".cpcm-lock"@),
            }),
            r.cpcmdbfile@ == (CfgPathV {
                ptype: PathType::File,
                path: join_spec(datadir@, "cpcm.db"@),
            }),
    {
        let configfile = join_path(&datadir, "config.json");
        let lockfile = join_path(&datadir, ".cpcm-lock");
        let dbfile = join_path(&datadir, "cpcm.db");
        GlobalPaths {
            cpcmdatadir: CfgPath { ptype: PathType::Directory, path: datadir },
            cpcmconfig: CfgPath { ptype: PathType::File, path: configfile },
            cpcmdbfile: CfgPath { ptype: PathType::File, path: dbfile },
            cpcmlockfile: CfgPath { ptype: PathType::File, path: lockfile },
        }
    }

    /// The configuration file's path.
    pub fn configfile(&self) -> (r: &String)
        ensures
            r@ == self.cpcmconfig@.path,
    {
        &self.cpcmconfig.path
    }

    /// The data directory's path.
    pub fn datadir(&self) -> (r: &String)
        ensures
            r@ == self.cpcmdatadir@.path,
    {
        &self.cpcmdatadir.path
    }

    /// The missing paths that are directories, in order: the ones
    /// initialization may create.
    pub fn dirs_to_create(e: &PathsError) -> (r: Vec<CfgPath>)
        ensures
            r@.map_values(|p: CfgPath| p@) == dirs_only_spec(
                e.missingpaths@.map_values(|p: CfgPath| p@),
            ),
    {
        let ghost psv = e.missingpaths@.map_values(|p: CfgPath| p@);
        let n = e.missingpaths.len();
        let mut r: Vec<CfgPath> = Vec::new();
        let mut i: usize = 0;
        while i < n
            invariant
                n == e.missingpaths.len(),
                0 <= i <= n,
                psv == e.missingpaths@.map_values(|p: CfgPath| p@),
                r@.map_values(|p: CfgPath| p@) == dirs_only_spec(psv.subrange(0, i as int)),
            decreases n - i,
        {
            proof {
                assert(psv.subrange(0, i + 1).drop_last() =~= psv.subrange(0, i as int));
                assert(psv.subrange(0, i + 1).last() == psv[i as int]);
            }
            if self_is_directory(&e.missingpaths[i]) {
                r.push(e.missingpaths[i].clone());
                proof {
                    assert(r@.map_values(|p: CfgPath| p@) =~= dirs_only_spec(
                        psv.subrange(0, i + 1),
                    ));
                }
            } else {
                proof {
                    assert(r@.map_values(|p: CfgPath| p@) =~= dirs_only_spec(
                        psv.subrange(0, i + 1),
                    ));
                }
            }
            i = i + 1;
        }
        proof {
            assert(psv.subrange(0, n as int) =~= psv);
        }
        r
    }
}

fn self_is_directory(p: &CfgPath) -> (r: bool)
    ensures
        r == (p@.ptype == PathType::Directory),
{
    p.ptype == PathType::Directory
}

/// The directory entries of a path list, in order.
pub open spec fn dirs_only_spec(ps: Seq<CfgPathV>) -> Seq<CfgPathV>
    decreases ps.len(),
{
    if ps.len() == 0 {
        Seq::empty()
    } else {
        let rest = dirs_only_spec(ps.drop_last());
        if ps.last().ptype == PathType::Directory {
            rest.push(ps.last())
        } else {
            rest
        }
    }
}

/// What the default data-directory lookup returns: `.cpcm` under the home
/// directory when that is an absolute path, and the exact error otherwise.
pub open spec fn default_datadir_spec(r: Result<String, String>, home: Option<String>) -> bool {
    match r {
        Ok(p) => home is Some && p@ == join_spec(home->Some_0@, ".cpcm"@) && is_absolute_spec(p@),
        Err(m) => match home {
            None => m@ == "Unable to find user's home directory"@,
            Some(h) => !is_absolute_spec(join_spec(h@, ".cpcm"@)) && m@
                == "System did not return a valid home directory path "@ + join_spec(h@, ".cpcm"@),
        },
    }
}

/// Where the data directory lives when the environment does not name one:
/// `.cpcm` in the user's home directory, which must be an absolute path.
pub fn get_cpcm_default_datadir(home: Option<String>) -> (r: Result<String, String>)
    ensures
        default_datadir_spec(r, home),
{
    let home = match home {
        Some(h) => h,
        None => {
            return Err("Unable to find user's home directory".to_string());
        },
    };
    let path = join_path(&home, ".cpcm");
    if !is_absolute(path.as_str()) {
        let m = "System did not return a valid home directory path ".to_string().concat(
            path.as_str(),
        );
        assert(m@ =~= "System did not return a valid home directory path "@ + join_spec(
            home@,
            ".cpcm"@,
        ));
        Err(m)
    } else {
        Ok(path)
    }
}

/// The data directory to use: the environment's choice when one is set and
/// nonempty after trimming — it must be absolute — and the default under the
/// home directory otherwise.
pub fn get_cpcm_datadir(env_value: Option<String>, home: Option<String>) -> (r: Result<
    String,
    String,
>)
    ensures
        match env_value {
            Some(d) => {
                let t = trim_spec(d@);
                if t.len() == 0 {
                    default_datadir_spec(r, home)
                } else if !is_absolute_spec(t) {
                    r is Err && r->Err_0@ == "Cannot use "@ + t
                        + " as data dir, found relative path."@
                } else {
                    r is Ok && r->Ok_0@ == t
                }
            },
            None => default_datadir_spec(r, home),
        },
{
    match env_value {
        Some(d) => {
            let t = trim_spaces(d.as_str());
            if t.as_str().unicode_len() == 0 {
                get_cpcm_default_datadir(home)
            } else if !is_absolute(t.as_str()) {
                let m = "Cannot use ".to_string().concat(t.as_str()).concat(
                    " as data dir, found relative path.",
                );
                assert(m@ =~= "Cannot use "@ + trim_spec(d@)
                    + " as data dir, found relative path."@);
                Err(m)
            } else {
                Ok(t)
            }
        },
        None => get_cpcm_default_datadir(home),
    }
}

} // verus!
