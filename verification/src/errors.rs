//! The errors the command layer reports, and the text the UI shows for each.

use vstd::prelude::*;
use crate::text::concat;

verus! {

/// A refused command.
#[derive(Debug, Clone, PartialEq, Eq)]
pub enum CommandError {
    /// Creating a site with a blank name.
    EmptySiteName,
    /// Duplicating a site under a blank name.
    EmptyCopyName,
    /// Another site already uses this slug.
    SlugTaken(String),
    /// No site has the given id.
    UnknownSite,
    /// A per-site PHP was asked for without naming a minor.
    NoPhpChosen,
    /// The requested minor is older than the configured minimum.
    MinorBelowMinimum { minor: String, min_php: String },
    /// The catalogue has no build of this minor.
    NoBuildForMinor(String),
    /// The catalogue has no build of the preferred default minor.
    NoDefaultBuild,
    /// The resolved version is older than the configured minimum.
    VersionBelowMinimum { version: String, min_php: String },
    /// A folder was asked for and none was given.
    EmptyFolder,
    /// The folder holds no router.php.
    NotASiteFolder,
    /// A site already lives in this folder.
    FolderAlreadyAdded,
    /// Opening in an editor with none configured.
    NoEditorChosen,
    /// The site's PHP runtime is missing.
    PhpNotInstalled(String),
    /// A restore was given something other than a .zip file.
    NotAZipBackup,
    /// The target folder of a new site already exists.
    DirectoryExists(String),
    /// Relocating sites would overwrite a folder of this name.
    ExistsInNewFolder(String),
    /// Backing up a site whose content folder does not exist yet.
    NoContentFolder,
    /// The site's path has no parent folder.
    BadSitePath,
}

impl CommandError {
    /// The text shown to the user.
    pub fn message(&self) -> (r: String)
        ensures
            match self {
                CommandError::EmptySiteName => r@ == "Please enter a site name."@,
                CommandError::EmptyCopyName => r@ == "Please enter a name for the copy."@,
                CommandError::SlugTaken(slug) => r@ == "A site named \u{201c}"@ + slug@
                    + "\u{201d} already exists."@,
                CommandError::UnknownSite => r@ == "Unknown site"@,
                CommandError::NoPhpChosen => r@ == "Please choose a PHP version."@,
                CommandError::MinorBelowMinimum { minor, min_php } => r@ == "PHP "@ + minor@
                    + " is below FrontPress's minimum ("@ + min_php@ + ")."@,
                CommandError::NoBuildForMinor(minor) => r@ == "No PHP "@ + minor@
                    + " build available"@,
                CommandError::NoDefaultBuild => r@ == "No default PHP build available"@,
                CommandError::VersionBelowMinimum { version, min_php } => r@ == "Selected PHP "@
                    + version@ + " is below the minimum "@ + min_php@ + "."@,
                CommandError::EmptyFolder => r@ == "Please choose a folder."@,
                CommandError::NotASiteFolder => r@
                    == "That folder isn't a FrontPress site (no router.php)."@,
                CommandError::FolderAlreadyAdded => r@ == "That folder is already added."@,
                CommandError::NoEditorChosen => r@
                    == "No editor chosen yet \u{2014} pick one in Settings."@,
                CommandError::PhpNotInstalled(version) => r@ == "PHP "@ + version@
                    + " isn't installed. Re-install it from PHP settings."@,
                CommandError::NotAZipBackup => r@ == "Please drop a .zip backup file."@,
                CommandError::DirectoryExists(dir) => r@ == "Directory already exists: "@ + dir@,
                CommandError::ExistsInNewFolder(slug) => r@ == "\u{201c}"@ + slug@
                    + "\u{201d} already exists in the new folder \u{2014} move it aside first."@,
                CommandError::NoContentFolder => r@
                    == "Open this site once (Preview or Login) so its content folder exists, then back it up."@,
                CommandError::BadSitePath => r@ == "Bad site path"@,
            },
    {
        match self {
            CommandError::EmptySiteName => String::from_str("Please enter a site name."),
            CommandError::EmptyCopyName => String::from_str("Please enter a name for the copy."),
            CommandError::SlugTaken(slug) => concat(
                concat("A site named \u{201c}", slug.as_str()).as_str(),
                "\u{201d} already exists.",
            ),
            CommandError::UnknownSite => String::from_str("Unknown site"),
            CommandError::NoPhpChosen => String::from_str("Please choose a PHP version."),
            CommandError::MinorBelowMinimum { minor, min_php } => concat(
                concat(
                    concat(concat("PHP ", minor.as_str()).as_str(), " is below FrontPress's minimum (").as_str(),
                    min_php.as_str(),
                ).as_str(),
                ").",
            ),
            CommandError::NoBuildForMinor(minor) => concat(
                concat("No PHP ", minor.as_str()).as_str(),
                " build available",
            ),
            CommandError::NoDefaultBuild => String::from_str("No default PHP build available"),
            CommandError::VersionBelowMinimum { version, min_php } => concat(
                concat(
                    concat(concat("Selected PHP ", version.as_str()).as_str(), " is below the minimum ").as_str(),
                    min_php.as_str(),
                ).as_str(),
                ".",
            ),
            CommandError::EmptyFolder => String::from_str("Please choose a folder."),
            CommandError::NotASiteFolder => String::from_str(
                "That folder isn't a FrontPress site (no router.php).",
            ),
            CommandError::FolderAlreadyAdded => String::from_str("That folder is already added."),
            CommandError::NoEditorChosen => String::from_str(
                "No editor chosen yet \u{2014} pick one in Settings.",
            ),
            CommandError::PhpNotInstalled(version) => concat(
                concat("PHP ", version.as_str()).as_str(),
                " isn't installed. Re-install it from PHP settings.",
            ),
            CommandError::NotAZipBackup => String::from_str("Please drop a .zip backup file."),
            CommandError::DirectoryExists(dir) => concat("Directory already exists: ", dir.as_str()),
            CommandError::ExistsInNewFolder(slug) => concat(
                concat("\u{201c}", slug.as_str()).as_str(),
                "\u{201d} already exists in the new folder \u{2014} move it aside first.",
            ),
            CommandError::NoContentFolder => String::from_str(
                "Open this site once (Preview or Login) so its content folder exists, then back it up.",
            ),
            CommandError::BadSitePath => String::from_str("Bad site path"),
        }
    }
}

} // verus!
