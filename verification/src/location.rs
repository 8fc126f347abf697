//! The on-disk layout of a collection: a base directory with fixed
//! sub-directories and files. The resolver validates observations that the
//! caller makes of the file system and hands out the derived paths.

use vstd::prelude::*;

verus! {

/// What a caller observed on disk about the base directory and each
/// required entry under it.
#[derive(Clone, Copy, Debug, PartialEq, Eq, Structural)]
pub struct DirProbe {
    /// The base path exists and is a directory (or a symlink to one).
    pub base_is_dir: bool,
    /// `source` under the base is a directory.
    pub source_is_dir: bool,
    /// `generated` under the base is a directory.
    pub generated_is_dir: bool,
    /// `posts` under the base is a directory.
    pub posts_is_dir: bool,
    /// `old` under the base is a directory.
    pub old_is_dir: bool,
    /// `watermarks` under the base is a regular file.
    pub watermarks_is_file: bool,
    /// `icon.png` under the base is a regular file.
    pub icon_is_file: bool,
}

/// A required entry under the base directory.
#[derive(Clone, Copy, Debug, PartialEq, Eq, Structural)]
pub enum Subpath {
    /// The `source` directory of original comics.
    Source,
    /// The `generated` directory of posts being prepared.
    Generated,
    /// The `posts` directory of completed posts.
    Posts,
    /// The `old` directory of archived posts.
    Old,
    /// The `watermarks` file of watermark text candidates.
    Watermarks,
    /// The `icon.png` overlay image.
    Icon,
}

impl Subpath {
    /// The entry's name under the base directory.
    pub fn name(&self) -> (r: &'static str)
        ensures
            (*self is Source) ==> r@ == "source"@,
            (*self is Generated) ==> r@ == "generated"@,
            (*self is Posts) ==> r@ == "posts"@,
            (*self is Old) ==> r@ == "old"@,
            (*self is Watermarks) ==> r@ == "watermarks"@,
            (*self is Icon) ==> r@ == "icon.png"@,
    {
        match self {
            Subpath::Source => "source",
            Subpath::Generated => "generated",
            Subpath::Posts => "posts",
            Subpath::Old => "old",
            Subpath::Watermarks => "watermarks",
            Subpath::Icon => "icon.png",
        }
    }
}

/// How resolving a location can fail.
#[derive(Clone, Copy, Debug, PartialEq, Eq, Structural)]
pub enum LocationError {
    /// No explicit path was given and the platform offers no standard data
    /// directory.
    NoStandardLocation,
    /// The base path is not a directory.
    InvalidLocation,
    /// A required entry under the base is missing or of the wrong kind.
    MissingSubpath(Subpath),
}

/// Every observation of the probe is good.
pub open spec fn probe_ok(p: DirProbe) -> bool {
    p.base_is_dir && p.source_is_dir && p.generated_is_dir && p.posts_is_dir
        && p.old_is_dir && p.watermarks_is_file && p.icon_is_file
}

/// The first failure a probe reports, in the order the entries are checked.
pub open spec fn first_violation(p: DirProbe) -> LocationError {
    if !p.base_is_dir {
        LocationError::InvalidLocation
    } else if !p.source_is_dir {
        LocationError::MissingSubpath(Subpath::Source)
    } else if !p.generated_is_dir {
        LocationError::MissingSubpath(Subpath::Generated)
    } else if !p.posts_is_dir {
        LocationError::MissingSubpath(Subpath::Posts)
    } else if !p.old_is_dir {
        LocationError::MissingSubpath(Subpath::Old)
    } else if !p.watermarks_is_file {
        LocationError::MissingSubpath(Subpath::Watermarks)
    } else {
        LocationError::MissingSubpath(Subpath::Icon)
    }
}

/// A resolved base directory. All paths of the collection are joins of this
/// base with fixed names, recomputed on each access.
pub struct Location {
    base_dir: String,
}

impl Location {
    /// The characters of the base directory path.
    pub closed spec fn base(self) -> Seq<char> {
        self.base_dir@
    }

    fn join(&self, name: &str) -> (r: String)
        ensures
            r@ == self.base() + "/"@ + name@,
    {
        let mut s = self.base_dir.clone();
        s.append("/");
        s.append(name);
        s
    }

    /// Path of the directory of original comics.
    pub fn source_dir(&self) -> (r: String)
        ensures
            r@ == self.base() + "/"@ + "source"@,
    {
        self.join("source")
    }

    /// Path of the directory of posts being prepared.
    pub fn generated_dir(&self) -> (r: String)
        ensures
            r@ == self.base() + "/"@ + "generated"@,
    {
        self.join("generated")
    }

    /// Path of the directory of completed posts.
    pub fn posts_dir(&self) -> (r: String)
        ensures
            r@ == self.base() + "/"@ + "posts"@,
    {
        self.join("posts")
    }

    /// Path of the directory of archived posts.
    pub fn old_dir(&self) -> (r: String)
        ensures
            r@ == self.base() + "/"@ + "old"@,
    {
        self.join("old")
    }

    /// Path of the directory for working files, kept under the base so that
    /// renames stay on one mount point.
    pub fn temp_dir(&self) -> (r: String)
        ensures
            r@ == self.base() + "/"@ + "tmp"@,
    {
        self.join("tmp")
    }

    /// Path of the append-only cache of recently shown dates.
    pub fn recent_file(&self) -> (r: String)
        ensures
            r@ == self.base() + "/"@ + "recent"@,
    {
        self.join("recent")
    }

    /// Path of the file of watermark text candidates, one per line.
    pub fn watermarks_file(&self) -> (r: String)
        ensures
            r@ == self.base() + "/"@ + "watermarks"@,
    {
        self.join("watermarks")
    }

    /// Path of the overlay icon image.
    pub fn icon_file(&self) -> (r: String)
        ensures
            r@ == self.base() + "/"@ + "icon.png"@,
    {
        self.join("icon.png")
    }

    /// Chooses the base directory: the explicit path when one is given, else
    /// the platform data directory with the tool's folder name under it, else
    /// a `NoStandardLocation` failure.
    pub fn get_base_dir(base_dir: Option<String>, data_dir: Option<String>) -> (r: Result<
        String,
        LocationError,
    >)
        ensures
            base_dir matches Some(b) ==> (r matches Ok(p) && p@ == b@),
            (base_dir is None && data_dir is Some) ==> (r matches Ok(p) && p@ == (
            data_dir->0)@ + "/"@ + "garfutils"@),
            base_dir is None && data_dir is None ==> r == Err::<String, LocationError>(
                LocationError::NoStandardLocation,
            ),
    {
        match base_dir {
            Some(b) => Ok(b),
            None => match data_dir {
                Some(d) => {
                    let mut s = d;
                    s.append("/");
                    s.append("garfutils");
                    Ok(s)
                },
                None => Err(LocationError::NoStandardLocation),
            },
        }
    }

    /// Validates a probe of the base directory: the first entry found
    /// missing or of the wrong kind, in a fixed order, decides the failure.
    pub fn check_dirs_exist(&self, probe: &DirProbe) -> (r: Result<(), LocationError>)
        ensures
            r is Ok <==> probe_ok(*probe),
            r matches Err(e) ==> e == first_violation(*probe),
    {
        if !probe.base_is_dir {
            Err(LocationError::InvalidLocation)
        } else if !probe.source_is_dir {
            Err(LocationError::MissingSubpath(Subpath::Source))
        } else if !probe.generated_is_dir {
            Err(LocationError::MissingSubpath(Subpath::Generated))
        } else if !probe.posts_is_dir {
            Err(LocationError::MissingSubpath(Subpath::Posts))
        } else if !probe.old_is_dir {
            Err(LocationError::MissingSubpath(Subpath::Old))
        } else if !probe.watermarks_is_file {
            Err(LocationError::MissingSubpath(Subpath::Watermarks))
        } else if !probe.icon_is_file {
            Err(LocationError::MissingSubpath(Subpath::Icon))
        } else {
            Ok(())
        }
    }

    /// Resolves a location from a chosen base directory and a probe of what
    /// stands on disk there: the location when every required entry is
    /// present with the right kind, else the first violation.
    pub fn from(base_dir: String, probe: &DirProbe) -> (r: Result<Location, LocationError>)
        ensures
            r matches Ok(loc) ==> loc.base() == base_dir@ && probe_ok(*probe),
            r is Ok <==> probe_ok(*probe),
            r matches Err(e) ==> e == first_violation(*probe),
    {
        let location = Location { base_dir };
        match location.check_dirs_exist(probe) {
            Ok(()) => Ok(location),
            Err(e) => Err(e),
        }
    }

    /// A short description of the expected directory layout, for the person
    /// reading a resolution failure.
    pub fn format_dir_structure(&self) -> (r: String)
        ensures
            r@ == "\nPlease ensure that these files and directories exist.\nEach item may be a symlink.\n\n"@
                + self.base() + "/\n  |- source/\n  |- generated/\n  |- posts/\n  |- watermarks\n  |- icon.png\n\nAlternatively, run this program with the `--location <LOCATION>` option."@,
    {
        let mut s = String::new();
        s.append(
            "\nPlease ensure that these files and directories exist.\nEach item may be a symlink.\n\n",
        );
        s.append(self.base_dir.as_str());
        s.append(
            "/\n  |- source/\n  |- generated/\n  |- posts/\n  |- watermarks\n  |- icon.png\n\nAlternatively, run this program with the `--location <LOCATION>` option.",
        );
        s
    }
}

} // verus!
