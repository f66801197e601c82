//! The configuration that the engine works from.

use vstd::prelude::*;
use vstd::string::StringExecFns;
use crate::error::{ErrorView, SovError};
use crate::path::{is_absolute, join_paths, joined, path_is_absolute, NotePath, PathView};
use crate::text::{texts, trim, trimmed};
use crate::time::{rfc3339_instant, Timestamp};

verus! {

/// What the configuration file holds.
#[derive(Debug, PartialEq, Eq)]
pub struct SovConfigToml {
    pub notes_dir: String,
    pub daily_notes_dir: String,
    pub scripts_dir: String,
    pub ignore_dirs: Vec<String>,
}

/// What a `SovConfigToml` holds, as mathematical values.
pub struct TomlView {
    pub notes_dir: Seq<char>,
    pub daily_notes_dir: Seq<char>,
    pub scripts_dir: Seq<char>,
    pub ignore_dirs: Seq<Seq<char>>,
}

impl View for SovConfigToml {
    type V = TomlView;

    open spec fn view(&self) -> TomlView {
        TomlView {
            notes_dir: self.notes_dir@,
            daily_notes_dir: self.daily_notes_dir@,
            scripts_dir: self.scripts_dir@,
            ignore_dirs: texts(self.ignore_dirs@),
        }
    }
}

impl Default for SovConfigToml {
    fn default() -> (toml: SovConfigToml)
        ensures
            toml@ == (TomlView {
                notes_dir: Seq::empty(),
                daily_notes_dir: Seq::empty(),
                scripts_dir: Seq::empty(),
                ignore_dirs: Seq::empty(),
            }),
    {
        let toml = SovConfigToml {
            notes_dir: String::new(),
            daily_notes_dir: String::new(),
            scripts_dir: String::new(),
            ignore_dirs: Vec::new(),
        };
        assert(toml@.ignore_dirs =~= Seq::empty());
        toml
    }
}

/// The configuration: where things are, and when the notes were last
/// indexed.
#[derive(Debug, PartialEq, Eq)]
pub struct SovConfig {
    pub config_dir: String,
    pub last_update_path: String,
    pub last_update: Timestamp,
    pub db_path: String,
    pub toml_path: String,
    pub toml: SovConfigToml,
}

/// What a `SovConfig` holds, as mathematical values.
pub struct ConfigView {
    pub config_dir: Seq<char>,
    pub last_update_path: Seq<char>,
    pub last_update: Timestamp,
    pub db_path: Seq<char>,
    pub toml_path: Seq<char>,
    pub toml: TomlView,
}

impl View for SovConfig {
    type V = ConfigView;

    open spec fn view(&self) -> ConfigView {
        ConfigView {
            config_dir: self.config_dir@,
            last_update_path: self.last_update_path@,
            last_update: self.last_update,
            db_path: self.db_path@,
            toml_path: self.toml_path@,
            toml: self.toml@,
        }
    }
}

/// `path` as a path below `root`: itself when it is absolute, else joined
/// to `root`.
pub open spec fn anchored(root: Seq<char>, path: Seq<char>) -> Seq<char> {
    if is_absolute(path) {
        path
    } else {
        joined(root, path)
    }
}

/// The function that anchors a path below `root`.
pub open spec fn anchor_at(root: Seq<char>) -> spec_fn(Seq<char>) -> Seq<char> {
    |path: Seq<char>| anchored(root, path)
}

/// The configuration file's values with every path but the notes directory
/// anchored below the notes directory.
pub open spec fn anchored_toml(toml: TomlView) -> TomlView {
    TomlView {
        notes_dir: toml.notes_dir,
        daily_notes_dir: anchored(toml.notes_dir, toml.daily_notes_dir),
        scripts_dir: anchored(toml.notes_dir, toml.scripts_dir),
        ignore_dirs: toml.ignore_dirs.map_values(anchor_at(toml.notes_dir)),
    }
}

/// `path` as a path below `root`.
fn anchor(root: &str, path: &str) -> (r: String)
    ensures
        r@ == anchored(root@, path@),
{
    if path_is_absolute(path) {
        String::from_str(path)
    } else {
        join_paths(root, path)
    }
}

impl SovConfig {
    pub const SOV_DIR: &'static str = "sov";

    pub const LAST_UPDATE_FILE: &'static str = "last_update";

    pub const MIN_DATE: &'static str = "1900-01-01T00:00:00+00:00";

    pub const DB_FILE: &'static str = "sov.db3";

    pub const TOML_FILE: &'static str = "sov.toml";

    /// The directory of the engine's configuration: the directory `sov` in
    /// the user's configuration directory, where the user has one.
    pub fn locate(user_dir: Option<&str>) -> (r: Result<String, SovError>)
        ensures
            match user_dir {
                Some(dir) => r is Ok && r->Ok_0@ == joined(dir@, SovConfig::SOV_DIR@),
                None => r is Err && r->Err_0@ == ErrorView::NoConfigDir,
            },
    {
        match user_dir {
            Some(dir) => Ok(join_paths(dir, SovConfig::SOV_DIR)),
            None => Err(SovError::NoConfigDir),
        }
    }

    /// Reads the stored time of the last index pass: an RFC 3339 date,
    /// with white space around it passed over.
    pub fn read_last_update(text: &str) -> (r: Result<Timestamp, SovError>)
        ensures
            match rfc3339_instant(trimmed(text@)) {
                Ok(t) => r == Ok::<Timestamp, SovError>(t),
                Err(message) => r is Err && r->Err_0@ == ErrorView::Chrono(message),
            },
    {
        match Timestamp::parse(trim(text).as_str()) {
            Ok(t) => Ok(t),
            Err(message) => Err(SovError::Chrono(message)),
        }
    }

    /// Puts the configuration together from the configuration directory,
    /// the time of the last index pass, the values of the configuration
    /// file, and whether the notes directory exists.
    ///
    /// The notes directory must be named, absolute and there. The other
    /// paths of the file are taken as paths below it unless they are
    /// absolute.
    pub fn load(
        config_dir: &str,
        last_update: Timestamp,
        toml: SovConfigToml,
        notes_dir_exists: bool,
    ) -> (r: Result<SovConfig, SovError>)
        ensures
            toml@.notes_dir.len() == 0 ==> r is Err && r->Err_0@ == ErrorView::NoNotesDir,
            toml@.notes_dir.len() > 0 && !(is_absolute(toml@.notes_dir) && notes_dir_exists) ==> r is Err
                && r->Err_0@ == ErrorView::InvalidNotesDir(PathView::Text(toml@.notes_dir)),
            toml@.notes_dir.len() > 0 && is_absolute(toml@.notes_dir) && notes_dir_exists ==> r is Ok
                && r->Ok_0@ == (ConfigView {
                config_dir: config_dir@,
                last_update_path: joined(config_dir@, SovConfig::LAST_UPDATE_FILE@),
                last_update,
                db_path: joined(config_dir@, SovConfig::DB_FILE@),
                toml_path: joined(config_dir@, SovConfig::TOML_FILE@),
                toml: anchored_toml(toml@),
            }),
    {
        if toml.notes_dir.as_str().is_empty() {
            return Err(SovError::NoNotesDir);
        }
        if !path_is_absolute(toml.notes_dir.as_str()) || !notes_dir_exists {
            return Err(SovError::InvalidNotesDir(NotePath::Text(toml.notes_dir)));
        }
        let mut ignore_dirs: Vec<String> = Vec::new();
        let mut i: usize = 0;
        while i < toml.ignore_dirs.len()
            invariant
                i <= toml.ignore_dirs.len(),
                ignore_dirs.len() == i,
                forall|k: int|
                    0 <= k < i ==> (#[trigger] ignore_dirs@[k])@ == anchored(
                        toml.notes_dir@,
                        toml.ignore_dirs@[k]@,
                    ),
            decreases toml.ignore_dirs.len() - i,
        {
            ignore_dirs.push(anchor(toml.notes_dir.as_str(), toml.ignore_dirs[i].as_str()));
            i += 1;
        }
        assert(texts(ignore_dirs@) =~= anchored_toml(toml@).ignore_dirs);
        let daily_notes_dir = anchor(toml.notes_dir.as_str(), toml.daily_notes_dir.as_str());
        let scripts_dir = anchor(toml.notes_dir.as_str(), toml.scripts_dir.as_str());
        Ok(
            SovConfig {
                config_dir: String::from_str(config_dir),
                last_update_path: join_paths(config_dir, SovConfig::LAST_UPDATE_FILE),
                last_update,
                db_path: join_paths(config_dir, SovConfig::DB_FILE),
                toml_path: join_paths(config_dir, SovConfig::TOML_FILE),
                toml: SovConfigToml {
                    notes_dir: toml.notes_dir,
                    daily_notes_dir,
                    scripts_dir,
                    ignore_dirs,
                },
            },
        )
    }

    /// Records `now` as the time of the last index pass.
    pub fn update_last_update(&mut self, now: Timestamp)
        ensures
            final(self)@ == (ConfigView { last_update: now, ..old(self)@ }),
    {
        self.last_update = now;
    }
}

} // verus!
