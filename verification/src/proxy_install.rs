//! Installs only the native proxy. Backends remain user-managed executables.
//!
//! Finding or installing the proxy takes questions to the host and changes to
//! the file system. `Installer` decides what comes next: it hands out one
//! request at a time and is told how it went.

use vstd::prelude::*;

use crate::backend::NAME;
use crate::extension::text_view;
use crate::seqs::{first_index, lemma_first_from, lemma_first_from_is};
use crate::text::same_text;

verus! {

pub const REPOSITORY: &'static str = "tzabbi/zed-gitlab-ci-ls";

/// Release assets are built from the extension's tag, not the proxy crate's version.
pub const RELEASE_TAG: &'static str = "v2.0.0";

// ---------------------------------------------------------------------------
// Platforms
// ---------------------------------------------------------------------------

#[derive(Clone, Copy, Debug, PartialEq, Eq, Structural)]
pub enum Os {
    Mac,
    Linux,
    Windows,
}

#[derive(Clone, Copy, Debug, PartialEq, Eq, Structural)]
pub enum Architecture {
    Aarch64,
    X86,
    X8664,
}

pub open spec fn os_name(os: Os) -> Seq<char> {
    match os {
        Os::Mac => "Os::Mac"@,
        Os::Linux => "Os::Linux"@,
        Os::Windows => "Os::Windows"@,
    }
}

pub open spec fn architecture_name(architecture: Architecture) -> Seq<char> {
    match architecture {
        Architecture::Aarch64 => "Architecture::Aarch64"@,
        Architecture::X86 => "Architecture::X86"@,
        Architecture::X8664 => "Architecture::X8664"@,
    }
}

/// The platforms for which the proxy is built.
pub open spec fn target_of(os: Os, architecture: Architecture) -> Option<Seq<char>> {
    match (os, architecture) {
        (Os::Linux, Architecture::X8664) => Some("x86_64-unknown-linux-musl"@),
        (Os::Linux, Architecture::Aarch64) => Some("aarch64-unknown-linux-musl"@),
        (Os::Mac, Architecture::X8664) => Some("x86_64-apple-darwin"@),
        (Os::Mac, Architecture::Aarch64) => Some("aarch64-apple-darwin"@),
        (Os::Windows, Architecture::X8664) => Some("x86_64-pc-windows-msvc"@),
        _ => None,
    }
}

pub open spec fn executable_of(os: Os) -> Seq<char> {
    if os == Os::Windows {
        "gitlab-ci-bash-ls.exe"@
    } else {
        NAME@
    }
}

pub open spec fn unsupported_platform(os: Os, architecture: Architecture) -> Seq<char> {
    "no prebuilt proxy for "@ + os_name(os) + "/"@ + architecture_name(architecture)
}

/// What is built for a platform.
#[derive(Debug)]
pub struct PlatformAsset {
    os: Os,
    architecture: Architecture,
}

impl PlatformAsset {
    pub closed spec fn platform(self) -> (Os, Architecture) {
        (self.os, self.architecture)
    }

    #[verifier::type_invariant]
    spec fn is_built(self) -> bool {
        target_of(self.os, self.architecture) is Some
    }

    pub open spec fn target_text(self) -> Seq<char> {
        target_of(self.platform().0, self.platform().1)->Some_0
    }

    pub open spec fn executable_text(self) -> Seq<char> {
        executable_of(self.platform().0)
    }

    pub fn new(os: Os, architecture: Architecture) -> (r: Result<Self, String>)
        ensures
            match r {
                Ok(asset) => target_of(os, architecture) is Some && asset.platform() == (
                    os,
                    architecture,
                ),
                Err(error) => target_of(os, architecture) is None && error@
                    == unsupported_platform(os, architecture),
            },
    {
        match (os, architecture) {
            (Os::Linux, Architecture::X8664) => Ok(PlatformAsset { os, architecture }),
            (Os::Linux, Architecture::Aarch64) => Ok(PlatformAsset { os, architecture }),
            (Os::Mac, Architecture::X8664) => Ok(PlatformAsset { os, architecture }),
            (Os::Mac, Architecture::Aarch64) => Ok(PlatformAsset { os, architecture }),
            (Os::Windows, Architecture::X8664) => Ok(PlatformAsset { os, architecture }),
            _ => {
                let mut error = "no prebuilt proxy for ".to_owned();
                error.append(
                    match os {
                        Os::Mac => "Os::Mac",
                        Os::Linux => "Os::Linux",
                        Os::Windows => "Os::Windows",
                    },
                );
                error.append("/");
                error.append(
                    match architecture {
                        Architecture::Aarch64 => "Architecture::Aarch64",
                        Architecture::X86 => "Architecture::X86",
                        Architecture::X8664 => "Architecture::X8664",
                    },
                );
                Err(error)
            },
        }
    }

    /// The target triple of the platform.
    pub fn target(&self) -> (r: &'static str)
        ensures
            r@ == self.target_text(),
    {
        proof {
            use_type_invariant(self);
        }
        match (self.os, self.architecture) {
            (Os::Linux, Architecture::X8664) => "x86_64-unknown-linux-musl",
            (Os::Linux, _) => "aarch64-unknown-linux-musl",
            (Os::Mac, Architecture::X8664) => "x86_64-apple-darwin",
            (Os::Mac, _) => "aarch64-apple-darwin",
            (Os::Windows, _) => "x86_64-pc-windows-msvc",
        }
    }

    /// The file name of the proxy on the platform.
    pub fn executable(&self) -> (r: &'static str)
        ensures
            r@ == self.executable_text(),
    {
        match self.os {
            Os::Windows => "gitlab-ci-bash-ls.exe",
            _ => NAME,
        }
    }

    /// The name of the release asset for the platform.
    pub fn name(&self) -> (r: String)
        ensures
            r@ == asset_name(self.platform().0, self.platform().1),
    {
        let mut name = NAME.to_owned();
        name.append("-");
        name.append(self.target());
        name.append(
            match self.os {
                Os::Windows => ".exe",
                _ => "",
            },
        );
        name
    }
}

/// The name of the release asset for a platform.
pub open spec fn asset_name(os: Os, architecture: Architecture) -> Seq<char> {
    NAME@ + "-"@ + target_of(os, architecture)->Some_0 + (if os == Os::Windows {
        ".exe"@
    } else {
        ""@
    })
}

// ---------------------------------------------------------------------------
// The cache
// ---------------------------------------------------------------------------

/// The directory of the proxy with a release tag for a target, as its parts
/// below the directory of the extension.
pub open spec fn cache_of(tag: Seq<char>, target: Seq<char>) -> Seq<Seq<char>> {
    seq![NAME@, tag, target]
}

/// The directory of the exact version for a target.
pub open spec fn cache_path(target: Seq<char>) -> Seq<Seq<char>> {
    cache_of(RELEASE_TAG@, target)
}

/// The file name of a download that is not finished.
pub open spec fn staging_name(executable: Seq<char>) -> Seq<char> {
    executable + ".download"@
}

/// Where the proxy is for a platform.
pub open spec fn binary_place(os: Os, architecture: Architecture) -> Seq<Seq<char>> {
    cache_path(target_of(os, architecture)->Some_0).push(executable_of(os))
}

/// Where its download goes.
pub open spec fn staging_place(os: Os, architecture: Architecture) -> Seq<Seq<char>> {
    cache_path(target_of(os, architecture)->Some_0).push(staging_name(executable_of(os)))
}

pub open spec fn place_view(parts: Seq<String>) -> Seq<Seq<char>> {
    parts.map_values(|part: String| part@)
}

impl PlatformAsset {
    /// The directory of the proxy in the cache.
    pub fn cache(&self) -> (r: Vec<String>)
        ensures
            place_view(r@) == cache_path(self.target_text()),
    {
        let mut parts: Vec<String> = Vec::new();
        parts.push(NAME.to_owned());
        parts.push(RELEASE_TAG.to_owned());
        parts.push(self.target().to_owned());
        assert(place_view(parts@) =~= cache_path(self.target_text()));
        parts
    }

    /// The file name of the download.
    pub fn staging(&self) -> (r: String)
        ensures
            r@ == staging_name(self.executable_text()),
    {
        let mut name = self.executable().to_owned();
        name.append(".download");
        name
    }

    /// Where the proxy is in the cache.
    pub fn binary_place(&self) -> (r: Vec<String>)
        ensures
            place_view(r@) == binary_place(self.platform().0, self.platform().1),
    {
        let mut parts = self.cache();
        let ghost directory = place_view(parts@);
        parts.push(self.executable().to_owned());
        assert(place_view(parts@) =~= directory.push(self.executable_text()));
        parts
    }

    /// Where the download goes.
    pub fn staging_place(&self) -> (r: Vec<String>)
        ensures
            place_view(r@) == staging_place(self.platform().0, self.platform().1),
    {
        let mut parts = self.cache();
        let ghost directory = place_view(parts@);
        parts.push(self.staging());
        assert(place_view(parts@) =~= directory.push(staging_name(self.executable_text())));
        parts
    }
}

// ---------------------------------------------------------------------------
// Requests
// ---------------------------------------------------------------------------

/// What the user sees of the installation.
#[derive(Debug)]
pub enum Status {
    CheckingForUpdate,
    Downloading,
    /// The installation is over.
    Idle,
    Failed(String),
}

pub enum StatusModel {
    CheckingForUpdate,
    Downloading,
    Idle,
    Failed(Seq<char>),
}

impl Status {
    pub open spec fn view(&self) -> StatusModel {
        match *self {
            Status::CheckingForUpdate => StatusModel::CheckingForUpdate,
            Status::Downloading => StatusModel::Downloading,
            Status::Idle => StatusModel::Idle,
            Status::Failed(error) => StatusModel::Failed(error@),
        }
    }
}

/// What is to be done next. Files and directories are given by the parts of
/// their paths below the directory of the extension.
#[derive(Debug)]
pub enum Request {
    /// Look for the proxy on `PATH`.
    Which,
    /// Find out the platform.
    Platform,
    /// Work out the paths of a directory and of two files in it: the proxy and
    /// its download.
    Locate(Vec<String>, String, String),
    /// Look what is at a path.
    Inspect(Vec<String>),
    MakeExecutable(Vec<String>),
    /// Look up the release.
    Release,
    CreateDirectory(Vec<String>),
    /// Remove a file if it is there.
    Remove(Vec<String>),
    /// Download from a URL to a file.
    Download(String, Vec<String>),
    /// Give the first file the place of the second.
    Rename(Vec<String>, Vec<String>),
    /// Remove a file, whether that works or not.
    Discard(Vec<String>),
    /// The path of the proxy, or why there is none.
    Finished(Result<String, String>),
}

pub enum RequestModel {
    Which,
    Platform,
    Locate(Seq<Seq<char>>, Seq<char>, Seq<char>),
    Inspect(Seq<Seq<char>>),
    MakeExecutable(Seq<Seq<char>>),
    Release,
    CreateDirectory(Seq<Seq<char>>),
    Remove(Seq<Seq<char>>),
    Download(Seq<char>, Seq<Seq<char>>),
    Rename(Seq<Seq<char>>, Seq<Seq<char>>),
    Discard(Seq<Seq<char>>),
    Finished(Result<Seq<char>, Seq<char>>),
}

pub open spec fn result_view(result: Result<String, String>) -> Result<Seq<char>, Seq<char>> {
    match result {
        Ok(path) => Ok(path@),
        Err(error) => Err(error@),
    }
}

impl Request {
    pub open spec fn view(&self) -> RequestModel {
        match *self {
            Request::Which => RequestModel::Which,
            Request::Platform => RequestModel::Platform,
            Request::Locate(directory, executable, staging) => RequestModel::Locate(
                place_view(directory@),
                executable@,
                staging@,
            ),
            Request::Inspect(file) => RequestModel::Inspect(place_view(file@)),
            Request::MakeExecutable(file) => RequestModel::MakeExecutable(place_view(file@)),
            Request::Release => RequestModel::Release,
            Request::CreateDirectory(directory) => RequestModel::CreateDirectory(
                place_view(directory@),
            ),
            Request::Remove(file) => RequestModel::Remove(place_view(file@)),
            Request::Download(url, file) => RequestModel::Download(url@, place_view(file@)),
            Request::Rename(from, to) => RequestModel::Rename(
                place_view(from@),
                place_view(to@),
            ),
            Request::Discard(file) => RequestModel::Discard(place_view(file@)),
            Request::Finished(result) => RequestModel::Finished(result_view(result)),
        }
    }
}

/// A release on GitHub.
#[derive(Debug)]
pub struct Release {
    pub version: String,
    /// The names and URLs of its assets.
    pub assets: Vec<(String, String)>,
}

pub struct ReleaseModel {
    pub version: Seq<char>,
    pub assets: Seq<(Seq<char>, Seq<char>)>,
}

impl Release {
    pub open spec fn view(&self) -> ReleaseModel {
        ReleaseModel {
            version: self.version@,
            assets: crate::extension::env_view(self.assets@),
        }
    }
}

/// Where the files of an installation are.
#[derive(Debug)]
pub struct Places {
    pub directory: String,
    /// Nothing when the path is not text.
    pub binary: Option<String>,
    pub staging: Option<String>,
}

pub struct PlacesModel {
    pub directory: Seq<char>,
    pub binary: Option<Seq<char>>,
    pub staging: Option<Seq<char>>,
}

impl Places {
    pub open spec fn view(&self) -> PlacesModel {
        PlacesModel {
            directory: self.directory@,
            binary: text_view(self.binary),
            staging: text_view(self.staging),
        }
    }
}

/// What the host finds at a path.
#[derive(Debug)]
pub enum Metadata {
    Found { is_file: bool, length: u64 },
    Missing,
    Failed(String),
}

pub enum MetadataModel {
    Found { is_file: bool, length: int },
    Missing,
    Failed(Seq<char>),
}

impl Metadata {
    pub open spec fn view(&self) -> MetadataModel {
        match *self {
            Metadata::Found { is_file, length } => MetadataModel::Found {
                is_file,
                length: length as int,
            },
            Metadata::Missing => MetadataModel::Missing,
            Metadata::Failed(error) => MetadataModel::Failed(error@),
        }
    }
}

/// Whether a file that is not empty is at `path`.
pub open spec fn nonempty(metadata: MetadataModel, path: Seq<char>) -> Result<bool, Seq<char>> {
    match metadata {
        MetadataModel::Found { is_file, length } => Ok(is_file && length > 0),
        MetadataModel::Missing => Ok(false),
        MetadataModel::Failed(error) => Err("cannot inspect "@ + path + ": "@ + error),
    }
}

/// Tells from what the host finds at `path` whether a file that is not empty is
/// there.
pub fn nonempty_file(metadata: Metadata, path: &str) -> (r: Result<bool, String>)
    ensures
        match r {
            Ok(there) => nonempty(metadata@, path@) == Ok::<bool, Seq<char>>(there),
            Err(error) => nonempty(metadata@, path@) == Err::<bool, Seq<char>>(error@),
        },
{
    match metadata {
        Metadata::Found { is_file, length } => Ok(is_file && length > 0),
        Metadata::Missing => Ok(false),
        Metadata::Failed(error) => Err(about("cannot inspect ", path, error.as_str())),
    }
}

/// How removing a file went.
#[derive(Debug)]
pub enum Removal {
    Removed,
    Missing,
    Failed(String),
}

pub enum RemovalModel {
    Removed,
    Missing,
    Failed(Seq<char>),
}

impl Removal {
    pub open spec fn view(&self) -> RemovalModel {
        match *self {
            Removal::Removed => RemovalModel::Removed,
            Removal::Missing => RemovalModel::Missing,
            Removal::Failed(error) => RemovalModel::Failed(error@),
        }
    }
}

/// Whether no file is at `path` any more.
pub open spec fn gone(removal: RemovalModel, path: Seq<char>) -> Result<(), Seq<char>> {
    match removal {
        RemovalModel::Failed(error) => Err("cannot remove "@ + path + ": "@ + error),
        _ => Ok(()),
    }
}

/// Tells from how removing the file at `path` went whether none is there.
pub fn remove_if_present(removal: Removal, path: &str) -> (r: Result<(), String>)
    ensures
        match r {
            Ok(()) => gone(removal@, path@) is Ok,
            Err(error) => gone(removal@, path@) == Err::<(), Seq<char>>(error@),
        },
{
    match removal {
        Removal::Failed(error) => Err(about("cannot remove ", path, error.as_str())),
        _ => Ok(()),
    }
}

fn about(what: &str, path: &str, error: &str) -> (r: String)
    ensures
        r@ == what@ + path@ + ": "@ + error@,
{
    let mut message = what.to_owned();
    message.append(path);
    message.append(": ");
    message.append(error);
    message
}

/// How the last request went.
#[derive(Debug)]
pub enum Reply {
    Which(Option<String>),
    Platform(Os, Architecture),
    Located(Places),
    Inspected(Metadata),
    Removed(Removal),
    Released(Result<Release, String>),
    /// Whether something else worked.
    Done(Result<(), String>),
}

pub enum ReplyModel {
    Which(Option<Seq<char>>),
    Platform(Os, Architecture),
    Located(PlacesModel),
    Inspected(MetadataModel),
    Removed(RemovalModel),
    Released(Result<ReleaseModel, Seq<char>>),
    Done(Result<(), Seq<char>>),
}

impl Reply {
    pub open spec fn view(&self) -> ReplyModel {
        match *self {
            Reply::Which(path) => ReplyModel::Which(text_view(path)),
            Reply::Platform(os, architecture) => ReplyModel::Platform(os, architecture),
            Reply::Located(places) => ReplyModel::Located(places@),
            Reply::Inspected(metadata) => ReplyModel::Inspected(metadata@),
            Reply::Removed(removal) => ReplyModel::Removed(removal@),
            Reply::Released(Ok(release)) => ReplyModel::Released(Ok(release@)),
            Reply::Released(Err(error)) => ReplyModel::Released(Err(error@)),
            Reply::Done(Ok(())) => ReplyModel::Done(Ok(())),
            Reply::Done(Err(error)) => ReplyModel::Done(Err(error@)),
        }
    }
}


// ---------------------------------------------------------------------------
// The installer
// ---------------------------------------------------------------------------

/// How far an installation is.
#[derive(Clone, Copy, Debug, PartialEq, Eq, Structural)]
pub enum Stage {
    Which,
    Platform,
    Locate,
    /// Is the proxy in the cache?
    Cached,
    CachedExecutable,
    Release,
    Directory,
    /// Is there a download that was not finished?
    Stale,
    Download,
    Downloaded,
    Executable,
    /// Is there an empty file in the cache?
    Replace,
    Rename,
    Discard,
    Finished,
}

pub struct InstallerModel {
    pub stage: Stage,
    pub platform: Option<(Os, Architecture)>,
    pub directory: Seq<char>,
    pub binary: Seq<char>,
    pub staging: Option<Seq<char>>,
    pub url: Seq<char>,
    pub error: Seq<char>,
    pub result: Result<Seq<char>, Seq<char>>,
    pub statuses: Seq<StatusModel>,
}

/// Finds the proxy, or installs it.
pub struct Installer {
    stage: Stage,
    asset: Option<PlatformAsset>,
    directory: String,
    binary: String,
    staging: Option<String>,
    url: String,
    error: String,
    result: Result<String, String>,
    statuses: Vec<Status>,
}

pub open spec fn statuses_view(statuses: Seq<Status>) -> Seq<StatusModel> {
    statuses.map_values(|status: Status| status@)
}

pub open spec fn asset_view(asset: Option<PlatformAsset>) -> Option<(Os, Architecture)> {
    match asset {
        Some(asset) => Some(asset.platform()),
        None => None,
    }
}

impl Installer {
    pub closed spec fn view(&self) -> InstallerModel {
        InstallerModel {
            stage: self.stage,
            platform: asset_view(self.asset),
            directory: self.directory@,
            binary: self.binary@,
            staging: text_view(self.staging),
            url: self.url@,
            error: self.error@,
            result: result_view(self.result),
            statuses: statuses_view(self.statuses@),
        }
    }
}

/// What the user is told when the proxy cannot be installed.
pub open spec fn install_failure(error: Seq<char>) -> Seq<char> {
    "Could not install "@ + NAME@ + " from "@ + REPOSITORY@ + " ("@ + RELEASE_TAG@ + "): "@ + error
        + ". Check your network access and that the release contains the matching asset. Alternatively, run `cargo install --locked --path "@
        + NAME@ + "` from a checkout, set `lsp."@ + NAME@
        + ".binary.path`, or disable the proxy with `languages.\"Gitlab-CI\".language_servers: [\"gitlab-ci\", \"!"@
        + NAME@ + "\"]`."@
}

pub open spec fn finished(s: InstallerModel, path: Seq<char>) -> InstallerModel {
    InstallerModel {
        stage: Stage::Finished,
        result: Ok(path),
        statuses: s.statuses.push(StatusModel::Idle),
        ..s
    }
}

pub open spec fn failed(s: InstallerModel, error: Seq<char>) -> InstallerModel {
    InstallerModel {
        stage: Stage::Finished,
        result: Err(install_failure(error)),
        statuses: s.statuses.push(StatusModel::Failed(install_failure(error))),
        ..s
    }
}

/// The download is given up, and its file goes.
pub open spec fn discarded(s: InstallerModel, error: Seq<char>) -> InstallerModel {
    InstallerModel { stage: Stage::Discard, error, ..s }
}

pub open spec fn initial_install() -> InstallerModel {
    InstallerModel {
        stage: Stage::Which,
        platform: None,
        directory: Seq::empty(),
        binary: Seq::empty(),
        staging: None,
        url: Seq::empty(),
        error: Seq::empty(),
        result: Ok(Seq::empty()),
        statuses: Seq::empty(),
    }
}

/// A configured path is taken as it is.
pub open spec fn started(configured: Option<Seq<char>>) -> InstallerModel {
    match configured {
        Some(path) => finished(initial_install(), path),
        None => initial_install(),
    }
}

pub open spec fn is_named(name: Seq<char>) -> spec_fn((Seq<char>, Seq<char>)) -> bool {
    |asset: (Seq<char>, Seq<char>)| asset.0 == name
}

/// Where to download the asset of a platform from, if the release is the right
/// one and has it.
pub open spec fn release_url(
    release: ReleaseModel,
    os: Os,
    architecture: Architecture,
) -> Result<Seq<char>, Seq<char>> {
    if release.version != RELEASE_TAG@ {
        Err("expected release "@ + RELEASE_TAG@ + ", got "@ + release.version)
    } else {
        match first_index(release.assets, is_named(asset_name(os, architecture))) {
            Some(i) => Ok(release.assets[i].1),
            None => Err(
                "release asset `"@ + asset_name(os, architecture) + "` is missing"@,
            ),
        }
    }
}

/// The path of the download.
pub open spec fn staging_text(s: InstallerModel) -> Seq<char> {
    match s.staging {
        Some(path) => path,
        None => Seq::empty(),
    }
}

/// The next stage, after a request went as `reply` says. Replies that do not
/// belong to the request change nothing.
pub open spec fn advanced(s: InstallerModel, reply: ReplyModel) -> InstallerModel {
    match (s.stage, reply) {
        (Stage::Which, ReplyModel::Which(Some(path))) => finished(s, path),
        (Stage::Which, ReplyModel::Which(None)) => InstallerModel { stage: Stage::Platform, ..s },
        (Stage::Platform, ReplyModel::Platform(os, architecture)) => if target_of(
            os,
            architecture,
        ) is Some {
            InstallerModel { stage: Stage::Locate, platform: Some((os, architecture)), ..s }
        } else {
            failed(s, unsupported_platform(os, architecture))
        },
        (Stage::Locate, ReplyModel::Located(places)) => match places.binary {
            Some(binary) => InstallerModel {
                stage: Stage::Cached,
                directory: places.directory,
                binary,
                staging: places.staging,
                ..s
            },
            None => failed(s, "non-UTF-8 installation path"@),
        },
        // Restarts continue working offline: the cache comes before the release.
        (Stage::Cached, ReplyModel::Inspected(metadata)) => match nonempty(metadata, s.binary) {
            Ok(true) => InstallerModel { stage: Stage::CachedExecutable, ..s },
            Ok(false) => InstallerModel {
                stage: Stage::Release,
                statuses: s.statuses.push(StatusModel::CheckingForUpdate),
                ..s
            },
            Err(error) => failed(s, error),
        },
        (Stage::CachedExecutable, ReplyModel::Done(Ok(()))) => finished(s, s.binary),
        (Stage::CachedExecutable, ReplyModel::Done(Err(error))) => failed(s, error),
        (Stage::Release, ReplyModel::Released(Ok(release))) => match s.platform {
            Some((os, architecture)) => match release_url(release, os, architecture) {
                Ok(url) => InstallerModel { stage: Stage::Directory, url, ..s },
                Err(error) => failed(s, error),
            },
            None => s,
        },
        (Stage::Release, ReplyModel::Released(Err(error))) => failed(s, error),
        (Stage::Directory, ReplyModel::Done(Ok(()))) => match s.staging {
            Some(_) => InstallerModel { stage: Stage::Stale, ..s },
            None => failed(s, "non-UTF-8 download path"@),
        },
        (Stage::Directory, ReplyModel::Done(Err(error))) => failed(
            s,
            "cannot create "@ + s.directory + ": "@ + error,
        ),
        (Stage::Stale, ReplyModel::Removed(removal)) => match gone(removal, staging_text(s)) {
            Ok(()) => InstallerModel {
                stage: Stage::Download,
                statuses: s.statuses.push(StatusModel::Downloading),
                ..s
            },
            Err(error) => failed(s, error),
        },
        (Stage::Download, ReplyModel::Done(Ok(()))) => InstallerModel {
            stage: Stage::Downloaded,
            ..s
        },
        (Stage::Download, ReplyModel::Done(Err(error))) => discarded(s, error),
        (Stage::Downloaded, ReplyModel::Inspected(metadata)) => match nonempty(
            metadata,
            staging_text(s),
        ) {
            Ok(true) => InstallerModel { stage: Stage::Executable, ..s },
            Ok(false) => discarded(s, "download did not produce a nonempty executable"@),
            Err(error) => discarded(s, error),
        },
        (Stage::Executable, ReplyModel::Done(Ok(()))) => InstallerModel {
            stage: Stage::Replace,
            ..s
        },
        (Stage::Executable, ReplyModel::Done(Err(error))) => discarded(s, error),
        // Replace an invalid empty cache file too: renaming may not overwrite.
        (Stage::Replace, ReplyModel::Removed(removal)) => match gone(removal, s.binary) {
            Ok(()) => InstallerModel { stage: Stage::Rename, ..s },
            Err(error) => discarded(s, error),
        },
        (Stage::Rename, ReplyModel::Done(Ok(()))) => finished(s, s.binary),
        (Stage::Rename, ReplyModel::Done(Err(error))) => discarded(
            s,
            "cannot finish installation to "@ + s.binary + ": "@ + error,
        ),
        (Stage::Discard, ReplyModel::Done(_)) => failed(s, s.error),
        _ => s,
    }
}

/// The request that goes with a stage on a platform.
pub open spec fn platform_request(
    s: InstallerModel,
    os: Os,
    architecture: Architecture,
) -> RequestModel {
    let directory = cache_path(target_of(os, architecture)->Some_0);
    let binary = binary_place(os, architecture);
    let staging = staging_place(os, architecture);
    match s.stage {
        Stage::Locate => RequestModel::Locate(
            directory,
            executable_of(os),
            staging_name(executable_of(os)),
        ),
        Stage::Cached => RequestModel::Inspect(binary),
        Stage::CachedExecutable => RequestModel::MakeExecutable(binary),
        Stage::Release => RequestModel::Release,
        Stage::Directory => RequestModel::CreateDirectory(directory),
        Stage::Stale => RequestModel::Remove(staging),
        Stage::Download => RequestModel::Download(s.url, staging),
        Stage::Downloaded => RequestModel::Inspect(staging),
        Stage::Executable => RequestModel::MakeExecutable(staging),
        Stage::Replace => RequestModel::Remove(binary),
        Stage::Rename => RequestModel::Rename(staging, binary),
        Stage::Discard => RequestModel::Discard(staging),
        Stage::Which => RequestModel::Which,
        Stage::Platform => RequestModel::Platform,
        Stage::Finished => RequestModel::Finished(s.result),
    }
}

/// The request that goes with a stage. All stages but the first two and the
/// last one need the platform.
pub open spec fn request_of(s: InstallerModel) -> RequestModel {
    match s.stage {
        Stage::Which => RequestModel::Which,
        Stage::Platform => RequestModel::Platform,
        Stage::Finished => RequestModel::Finished(s.result),
        _ => match s.platform {
            Some((os, architecture)) => platform_request(s, os, architecture),
            None => RequestModel::Platform,
        },
    }
}

fn install_failure_text(error: &str) -> (r: String)
    ensures
        r@ == install_failure(error@),
{
    let mut text = "Could not install ".to_owned();
    text.append(NAME);
    text.append(" from ");
    text.append(REPOSITORY);
    text.append(" (");
    text.append(RELEASE_TAG);
    text.append("): ");
    text.append(error);
    text.append(
        ". Check your network access and that the release contains the matching asset. Alternatively, run `cargo install --locked --path ",
    );
    text.append(NAME);
    text.append("` from a checkout, set `lsp.");
    text.append(NAME);
    text.append(
        ".binary.path`, or disable the proxy with `languages.\"Gitlab-CI\".language_servers: [\"gitlab-ci\", \"!",
    );
    text.append(NAME);
    text.append("\"]`.");
    text
}

fn find_url(release: &Release, asset: &PlatformAsset) -> (r: Result<String, String>)
    ensures
        result_view(r) == release_url(release@, asset.platform().0, asset.platform().1),
{
    if !same_text(release.version.as_str(), RELEASE_TAG) {
        let mut error = "expected release ".to_owned();
        error.append(RELEASE_TAG);
        error.append(", got ");
        error.append(release.version.as_str());
        return Err(error);
    }
    let name = asset.name();
    let ghost assets = release@.assets;
    let mut i: usize = 0;
    while i < release.assets.len()
        invariant
            i <= release.assets@.len(),
            assets == release@.assets,
            assets.len() == release.assets@.len(),
            release.version@ == RELEASE_TAG@,
            name@ == asset_name(asset.platform().0, asset.platform().1),
            forall|k: int| 0 <= k < i ==> !is_named(name@)(#[trigger] assets[k]),
        decreases release.assets@.len() - i,
    {
        assert(assets[i as int] == (release.assets@[i as int].0@, release.assets@[i as int].1@));
        if same_text(release.assets[i].0.as_str(), name.as_str()) {
            proof {
                lemma_first_from_is(assets, is_named(name@), 0, i as int);
            }
            return Ok(release.assets[i].1.clone());
        }
        i = i + 1;
    }
    proof {
        lemma_first_from(assets, is_named(name@), 0);
    }
    let mut error = "release asset `".to_owned();
    error.append(name.as_str());
    error.append("` is missing");
    Err(error)
}

impl Installer {
    /// Starts to look for the proxy, with the path that the user configured.
    pub fn start(configured: Option<String>) -> (r: Self)
        ensures
            r@ == started(text_view(configured)),
    {
        let statuses: Vec<Status> = Vec::new();
        assert(statuses_view(statuses@) =~= Seq::<StatusModel>::empty());
        let mut installer = Installer {
            stage: Stage::Which,
            asset: None,
            directory: String::new(),
            binary: String::new(),
            staging: None,
            url: String::new(),
            error: String::new(),
            result: Ok(String::new()),
            statuses,
        };
        if let Some(path) = configured {
            installer.finish(path);
        }
        installer
    }

    fn show(&mut self, status: Status)
        ensures
            final(self)@ == (InstallerModel {
                statuses: old(self)@.statuses.push(status@),
                ..old(self)@
            }),
    {
        let ghost before = self@.statuses;
        self.statuses.push(status);
        assert(self@.statuses =~= before.push(status@));
    }

    fn finish(&mut self, path: String)
        ensures
            final(self)@ == finished(old(self)@, path@),
    {
        self.stage = Stage::Finished;
        self.result = Ok(path);
        self.show(Status::Idle);
    }

    fn fail(&mut self, error: &str)
        ensures
            final(self)@ == failed(old(self)@, error@),
    {
        let message = install_failure_text(error);
        self.stage = Stage::Finished;
        self.result = Err(message.clone());
        self.show(Status::Failed(message));
    }

    fn discard(&mut self, error: String)
        ensures
            final(self)@ == discarded(old(self)@, error@),
    {
        self.stage = Stage::Discard;
        self.error = error;
    }

    fn staging_path(&self) -> (r: String)
        ensures
            r@ == staging_text(self@),
    {
        match &self.staging {
            Some(path) => path.clone(),
            None => {
                let none = String::new();
                assert(none@ =~= Seq::<char>::empty());
                none
            },
        }
    }

    /// Hands out what the user is to see.
    pub fn take_statuses(&mut self) -> (r: Vec<Status>)
        ensures
            statuses_view(r@) == old(self)@.statuses,
            final(self)@ == (InstallerModel { statuses: Seq::empty(), ..old(self)@ }),
    {
        let mut statuses: Vec<Status> = Vec::new();
        std::mem::swap(&mut statuses, &mut self.statuses);
        assert(self@.statuses =~= Seq::<StatusModel>::empty());
        statuses
    }

    /// What is to be done next.
    pub fn request(&self) -> (r: Request)
        ensures
            r@ == request_of(self@),
    {
        match self.stage {
            Stage::Which => return Request::Which,
            Stage::Platform => return Request::Platform,
            Stage::Finished => {
                return Request::Finished(
                    match &self.result {
                        Ok(path) => Ok(path.clone()),
                        Err(error) => Err(error.clone()),
                    },
                );
            },
            _ => {},
        }
        let asset = match &self.asset {
            Some(asset) => asset,
            None => return Request::Platform,
        };
        match self.stage {
            Stage::Locate => Request::Locate(
                asset.cache(),
                asset.executable().to_owned(),
                asset.staging(),
            ),
            Stage::Cached => Request::Inspect(asset.binary_place()),
            Stage::CachedExecutable => Request::MakeExecutable(asset.binary_place()),
            Stage::Release => Request::Release,
            Stage::Directory => Request::CreateDirectory(asset.cache()),
            Stage::Stale => Request::Remove(asset.staging_place()),
            Stage::Download => Request::Download(self.url.clone(), asset.staging_place()),
            Stage::Downloaded => Request::Inspect(asset.staging_place()),
            Stage::Executable => Request::MakeExecutable(asset.staging_place()),
            Stage::Replace => Request::Remove(asset.binary_place()),
            Stage::Rename => Request::Rename(asset.staging_place(), asset.binary_place()),
            Stage::Discard => Request::Discard(asset.staging_place()),
            Stage::Which => Request::Which,
            Stage::Platform => Request::Platform,
            Stage::Finished => Request::Platform,
        }
    }

    /// Takes notice of how the last request went.
    pub fn advance(&mut self, reply: Reply)
        ensures
            final(self)@ == advanced(old(self)@, reply@),
    {
        match (self.stage, reply) {
            (Stage::Which, Reply::Which(Some(path))) => self.finish(path),
            (Stage::Which, Reply::Which(None)) => {
                self.stage = Stage::Platform;
            },
            (Stage::Platform, Reply::Platform(os, architecture)) => {
                match PlatformAsset::new(os, architecture) {
                    Ok(asset) => {
                        self.stage = Stage::Locate;
                        self.asset = Some(asset);
                    },
                    Err(error) => self.fail(error.as_str()),
                }
            },
            (Stage::Locate, Reply::Located(places)) => match places.binary {
                Some(binary) => {
                    self.stage = Stage::Cached;
                    self.directory = places.directory;
                    self.binary = binary;
                    self.staging = places.staging;
                },
                None => self.fail("non-UTF-8 installation path"),
            },
            (Stage::Cached, Reply::Inspected(metadata)) => {
                match nonempty_file(metadata, self.binary.as_str()) {
                    Ok(true) => {
                        self.stage = Stage::CachedExecutable;
                    },
                    Ok(false) => {
                        self.stage = Stage::Release;
                        self.show(Status::CheckingForUpdate);
                    },
                    Err(error) => self.fail(error.as_str()),
                }
            },
            (Stage::CachedExecutable, Reply::Done(Ok(()))) => {
                let path = self.binary.clone();
                self.finish(path);
            },
            (Stage::CachedExecutable, Reply::Done(Err(error))) => self.fail(error.as_str()),
            (Stage::Release, Reply::Released(Ok(release))) => {
                let found = match &self.asset {
                    Some(asset) => find_url(&release, asset),
                    None => return ,
                };
                match found {
                    Ok(url) => {
                        self.stage = Stage::Directory;
                        self.url = url;
                    },
                    Err(error) => self.fail(error.as_str()),
                }
            },
            (Stage::Release, Reply::Released(Err(error))) => self.fail(error.as_str()),
            (Stage::Directory, Reply::Done(Ok(()))) => {
                if self.staging.is_some() {
                    self.stage = Stage::Stale;
                } else {
                    self.fail("non-UTF-8 download path");
                }
            },
            (Stage::Directory, Reply::Done(Err(error))) => {
                let message = about("cannot create ", self.directory.as_str(), error.as_str());
                self.fail(message.as_str());
            },
            (Stage::Stale, Reply::Removed(removal)) => {
                let path = self.staging_path();
                match remove_if_present(removal, path.as_str()) {
                    Ok(()) => {
                        self.stage = Stage::Download;
                        self.show(Status::Downloading);
                    },
                    Err(error) => self.fail(error.as_str()),
                }
            },
            (Stage::Download, Reply::Done(Ok(()))) => {
                self.stage = Stage::Downloaded;
            },
            (Stage::Download, Reply::Done(Err(error))) => self.discard(error),
            (Stage::Downloaded, Reply::Inspected(metadata)) => {
                let path = self.staging_path();
                match nonempty_file(metadata, path.as_str()) {
                    Ok(true) => {
                        self.stage = Stage::Executable;
                    },
                    Ok(false) => {
                        self.discard("download did not produce a nonempty executable".to_owned());
                    },
                    Err(error) => self.discard(error),
                }
            },
            (Stage::Executable, Reply::Done(Ok(()))) => {
                self.stage = Stage::Replace;
            },
            (Stage::Executable, Reply::Done(Err(error))) => self.discard(error),
            (Stage::Replace, Reply::Removed(removal)) => {
                match remove_if_present(removal, self.binary.as_str()) {
                    Ok(()) => {
                        self.stage = Stage::Rename;
                    },
                    Err(error) => self.discard(error),
                }
            },
            (Stage::Rename, Reply::Done(Ok(()))) => {
                let path = self.binary.clone();
                self.finish(path);
            },
            (Stage::Rename, Reply::Done(Err(error))) => {
                let message = about(
                    "cannot finish installation to ",
                    self.binary.as_str(),
                    error.as_str(),
                );
                self.discard(message);
            },
            (Stage::Discard, Reply::Done(_)) => {
                let error = self.error.clone();
                self.fail(error.as_str());
            },
            _ => {},
        }
    }
}

// ---------------------------------------------------------------------------
// Laws
// ---------------------------------------------------------------------------

/// A configured path wins over everything, then what is on `PATH`: nothing else
/// is asked or done, on any platform.
pub proof fn law_configured_then_path(path: Seq<char>)
    ensures
        request_of(started(Some(path))) == RequestModel::Finished(Ok(path)),
        request_of(started(None)) == RequestModel::Which,
        request_of(advanced(started(None), ReplyModel::Which(Some(path))))
            == RequestModel::Finished(Ok(path)),
{
}

/// A complete proxy in the cache for the exact version and platform is used:
/// it is looked for at its place there, made executable, and its path is the
/// result. No release is asked for, and nothing is downloaded.
pub proof fn law_complete_cache_needs_no_release(
    os: Os,
    architecture: Architecture,
    places: PlacesModel,
    length: int,
)
    requires
        target_of(os, architecture) is Some,
        places.binary is Some,
        length > 0,
    ensures
        ({
            let target = target_of(os, architecture)->Some_0;
            let executable = executable_of(os);
            let place = cache_path(target).push(executable);
            let missed = advanced(started(None), ReplyModel::Which(None));
            let known = advanced(missed, ReplyModel::Platform(os, architecture));
            let located = advanced(known, ReplyModel::Located(places));
            let file = MetadataModel::Found { is_file: true, length };
            let found = advanced(located, ReplyModel::Inspected(file));
            let done = advanced(found, ReplyModel::Done(Ok(())));
            &&& request_of(missed) == RequestModel::Platform
            &&& request_of(known) == RequestModel::Locate(
                cache_path(target),
                executable,
                staging_name(executable),
            )
            &&& request_of(located) == RequestModel::Inspect(place)
            &&& request_of(found) == RequestModel::MakeExecutable(place)
            &&& request_of(done) == RequestModel::Finished(Ok(places.binary->Some_0))
        }),
{
}

/// The caches of different versions or targets are different directories, and
/// no file is in both.
pub proof fn law_caches_are_kept_apart(
    tag: Seq<char>,
    target: Seq<char>,
    other_tag: Seq<char>,
    other_target: Seq<char>,
    file: Seq<char>,
    other_file: Seq<char>,
)
    requires
        tag != other_tag || target != other_target,
    ensures
        cache_of(tag, target) != cache_of(other_tag, other_target),
        cache_of(tag, target).push(file) != cache_of(other_tag, other_target).push(other_file),
{
    let a = cache_of(tag, target);
    let b = cache_of(other_tag, other_target);
    assert(a[1] == tag && a[2] == target);
    assert(b[1] == other_tag && b[2] == other_target);
    assert(a.push(file)[1] == tag && a.push(file)[2] == target);
    assert(b.push(other_file)[1] == other_tag && b.push(other_file)[2] == other_target);
}

/// Every platform has a target of its own.
pub proof fn law_targets_are_distinct(
    os: Os,
    architecture: Architecture,
    other_os: Os,
    other_architecture: Architecture,
)
    requires
        target_of(os, architecture) is Some,
        target_of(os, architecture) == target_of(other_os, other_architecture),
    ensures
        os == other_os,
        architecture == other_architecture,
{
    reveal_strlit("x86_64-unknown-linux-musl");
    reveal_strlit("aarch64-unknown-linux-musl");
    reveal_strlit("x86_64-apple-darwin");
    reveal_strlit("aarch64-apple-darwin");
    reveal_strlit("x86_64-pc-windows-msvc");
    assert("x86_64-unknown-linux-musl"@.len() == 25);
    assert("aarch64-unknown-linux-musl"@.len() == 26);
    assert("x86_64-apple-darwin"@.len() == 19);
    assert("aarch64-apple-darwin"@.len() == 20);
    assert("x86_64-pc-windows-msvc"@.len() == 22);
}

/// The files that a request reads or changes.
pub open spec fn files_of(request: RequestModel) -> Set<Seq<Seq<char>>> {
    match request {
        RequestModel::Inspect(file) => set![file],
        RequestModel::MakeExecutable(file) => set![file],
        RequestModel::Remove(file) => set![file],
        RequestModel::Download(_, file) => set![file],
        RequestModel::Rename(from, to) => set![from, to],
        RequestModel::Discard(file) => set![file],
        _ => Set::empty(),
    }
}

/// No file under another version or target is used or changed.
pub proof fn law_other_caches_are_left_alone(
    s: InstallerModel,
    tag: Seq<char>,
    target: Seq<char>,
    file: Seq<char>,
)
    requires
        is_settled(s),
        s.platform matches Some((os, architecture)) ==> tag != RELEASE_TAG@ || target != target_of(
            os,
            architecture,
        )->Some_0,
    ensures
        !files_of(request_of(s)).contains(cache_of(tag, target).push(file)),
{
    if let Some((os, architecture)) = s.platform {
        let own = target_of(os, architecture)->Some_0;
        let executable = executable_of(os);
        law_caches_are_kept_apart(RELEASE_TAG@, own, tag, target, executable, file);
        law_caches_are_kept_apart(RELEASE_TAG@, own, tag, target, staging_name(executable), file);
    }
}

/// Whether the platform is known from the stage on that needs it, and is one
/// for which the proxy is built.
pub open spec fn is_settled(s: InstallerModel) -> bool {
    &&& s.platform matches Some((os, architecture)) ==> target_of(os, architecture) is Some
    &&& s.platform is None ==> s.stage == Stage::Which || s.stage == Stage::Platform || s.stage
        == Stage::Finished
}

/// An installation is settled at the start and stays so, and once the platform
/// is known it does not change.
pub proof fn law_installations_stay_settled(
    configured: Option<Seq<char>>,
    s: InstallerModel,
    reply: ReplyModel,
)
    ensures
        is_settled(started(configured)),
        is_settled(s) ==> is_settled(advanced(s, reply)),
        s.stage != Stage::Platform && s.platform is Some ==> advanced(s, reply).platform
            == s.platform,
{
    lemma_platform_kept(s, reply);
    let early = s.stage == Stage::Which || s.stage == Stage::Platform || s.stage == Stage::Finished;
    if early && is_settled(s) {
        lemma_first_stages(s, reply);
    }
}

proof fn lemma_platform_kept(s: InstallerModel, reply: ReplyModel)
    ensures
        s.stage != Stage::Platform ==> advanced(s, reply).platform == s.platform,
{
}

proof fn lemma_first_stages(s: InstallerModel, reply: ReplyModel)
    requires
        s.stage == Stage::Which || s.stage == Stage::Platform || s.stage == Stage::Finished,
        is_settled(s),
    ensures
        is_settled(advanced(s, reply)),
{
}

/// A download is renamed into the cache only after it finished, was found not
/// to be empty and was made executable: each of these stages is entered from
/// the one before it, when that went well, and in no other way.
pub proof fn law_only_finished_downloads_enter_the_cache(s: InstallerModel, reply: ReplyModel)
    ensures
        ({
            let next = advanced(s, reply);
            &&& next.stage == Stage::Downloaded && s.stage != Stage::Downloaded ==> s.stage
                == Stage::Download && (reply matches ReplyModel::Done(Ok(_)))
            &&& next.stage == Stage::Executable && s.stage != Stage::Executable ==> s.stage
                == Stage::Downloaded && (reply matches ReplyModel::Inspected(
                MetadataModel::Found { is_file, length },
            ) && is_file && length > 0)
            &&& next.stage == Stage::Replace && s.stage != Stage::Replace ==> s.stage
                == Stage::Executable && (reply matches ReplyModel::Done(Ok(_)))
            &&& next.stage == Stage::Rename && s.stage != Stage::Rename ==> s.stage
                == Stage::Replace && (reply matches ReplyModel::Removed(removal) && !(removal
                is Failed))
            &&& is_settled(s) ==> (request_of(next) is Rename <==> next.stage == Stage::Rename)
        }),
{
}

/// Whether a download has begun and is not in the cache yet.
pub open spec fn is_downloading(stage: Stage) -> bool {
    stage == Stage::Download || stage == Stage::Downloaded || stage == Stage::Executable || stage
        == Stage::Replace || stage == Stage::Rename
}

/// When anything goes wrong after a download has begun, its file is discarded
/// and the installation fails.
pub proof fn law_failed_downloads_are_discarded(
    s: InstallerModel,
    error: Seq<char>,
    discarded: Result<(), Seq<char>>,
)
    requires
        is_downloading(s.stage),
        is_settled(s),
    ensures
        ({
            let staging = staging_place(s.platform->Some_0.0, s.platform->Some_0.1);
            let reply = match s.stage {
                Stage::Downloaded => ReplyModel::Inspected(MetadataModel::Failed(error)),
                Stage::Replace => ReplyModel::Removed(RemovalModel::Failed(error)),
                _ => ReplyModel::Done(Err(error)),
            };
            let next = advanced(s, reply);
            &&& request_of(next) == RequestModel::Discard(staging)
            &&& request_of(advanced(next, ReplyModel::Done(discarded))) matches RequestModel::Finished(
                Err(_),
            )
        }),
        s.stage == Stage::Downloaded ==> forall|metadata: MetadataModel|
            nonempty(metadata, staging_text(s)) != Ok::<bool, Seq<char>>(true) ==> request_of(
                #[trigger] advanced(s, ReplyModel::Inspected(metadata)),
            ) is Discard,
{
}

/// How many stages can still follow.
pub open spec fn stages_left(stage: Stage) -> nat {
    match stage {
        Stage::Which => 14,
        Stage::Platform => 13,
        Stage::Locate => 12,
        Stage::Cached => 11,
        Stage::CachedExecutable => 10,
        Stage::Release => 9,
        Stage::Directory => 8,
        Stage::Stale => 7,
        Stage::Download => 6,
        Stage::Downloaded => 5,
        Stage::Executable => 4,
        Stage::Replace => 3,
        Stage::Rename => 2,
        Stage::Discard => 1,
        Stage::Finished => 0,
    }
}

/// Every installation comes to an end: a reply that belongs to the request
/// brings it closer, and a finished one stays as it is.
pub proof fn law_installations_end(s: InstallerModel, reply: ReplyModel)
    ensures
        advanced(s, reply) != s ==> stages_left(advanced(s, reply).stage) < stages_left(s.stage),
        s.stage == Stage::Finished ==> advanced(s, reply) == s,
{
}

/// Only an asset of the exact version with the name for the platform is
/// downloaded.
pub proof fn law_exact_version_is_downloaded(
    release: ReleaseModel,
    os: Os,
    architecture: Architecture,
)
    ensures
        release_url(release, os, architecture) matches Ok(url) ==> release.version == RELEASE_TAG@
            && release.assets.contains((asset_name(os, architecture), url)),
{
    lemma_first_from(release.assets, is_named(asset_name(os, architecture)), 0);
    if let Some(i) = first_index(release.assets, is_named(asset_name(os, architecture))) {
        assert(release.assets[i] == (asset_name(os, architecture), release.assets[i].1));
    }
}

/// The user sees how the installation ended: the last status is a failure with
/// the error, or that it is over.
pub proof fn law_last_status_tells_the_result(s: InstallerModel, reply: ReplyModel)
    requires
        s.stage != Stage::Finished,
        advanced(s, reply).stage == Stage::Finished,
    ensures
        advanced(s, reply).statuses.last() == (match advanced(s, reply).result {
            Ok(_) => StatusModel::Idle,
            Err(error) => StatusModel::Failed(error),
        }),
{
}

/// The proxy is built for Linux and macOS on both 64-bit architectures and for
/// Windows on x86-64. Its release asset is named after the target, and so is
/// its directory below the one of the exact version.
pub proof fn law_platforms_and_their_files(os: Os, architecture: Architecture)
    ensures
        target_of(os, architecture) is None <==> architecture == Architecture::X86 || (os
            == Os::Windows && architecture == Architecture::Aarch64),
        target_of(Os::Linux, Architecture::X8664) == Some("x86_64-unknown-linux-musl"@),
        target_of(Os::Linux, Architecture::Aarch64) == Some("aarch64-unknown-linux-musl"@),
        target_of(Os::Mac, Architecture::X8664) == Some("x86_64-apple-darwin"@),
        target_of(Os::Mac, Architecture::Aarch64) == Some("aarch64-apple-darwin"@),
        target_of(Os::Windows, Architecture::X8664) == Some("x86_64-pc-windows-msvc"@),
        target_of(os, architecture) matches Some(target) ==> {
            let executable = if os == Os::Windows {
                "gitlab-ci-bash-ls.exe"@
            } else {
                "gitlab-ci-bash-ls"@
            };
            let directory = seq!["gitlab-ci-bash-ls"@, "v2.0.0"@, target];
            &&& executable_of(os) == executable
            &&& os == Os::Windows ==> asset_name(os, architecture) == "gitlab-ci-bash-ls"@ + "-"@
                + target + ".exe"@
            &&& os != Os::Windows ==> asset_name(os, architecture) == "gitlab-ci-bash-ls"@ + "-"@
                + target
            &&& cache_path(target) == directory
            &&& binary_place(os, architecture) == directory.push(executable)
            &&& staging_place(os, architecture) == directory.push(executable + ".download"@)
        },
{
    reveal_strlit("");
    if let Some(target) = target_of(os, architecture) {
        let name = "gitlab-ci-bash-ls"@ + "-"@ + target;
        assert(name + ""@ =~= name);
    }
}

/// A platform without a proxy is named in the error.
pub proof fn law_other_platforms_are_refused(
    s: InstallerModel,
    os: Os,
    architecture: Architecture,
)
    requires
        s.stage == Stage::Platform,
        target_of(os, architecture) is None,
    ensures
        ({
            let system = match os {
                Os::Mac => "Os::Mac"@,
                Os::Linux => "Os::Linux"@,
                Os::Windows => "Os::Windows"@,
            };
            let machine = match architecture {
                Architecture::Aarch64 => "Architecture::Aarch64"@,
                Architecture::X86 => "Architecture::X86"@,
                Architecture::X8664 => "Architecture::X8664"@,
            };
            fails_with(
                s,
                advanced(s, ReplyModel::Platform(os, architecture)),
                "no prebuilt proxy for "@ + system + "/"@ + machine,
            )
        }),
{
}

/// Whether an installation went from `s` to its end with an error.
pub open spec fn fails_with(s: InstallerModel, next: InstallerModel, error: Seq<char>) -> bool {
    let text = "Could not install "@ + "gitlab-ci-bash-ls"@ + " from "@ + "tzabbi/zed-gitlab-ci-ls"@
        + " ("@ + "v2.0.0"@ + "): "@ + error
        + ". Check your network access and that the release contains the matching asset. Alternatively, run `cargo install --locked --path "@
        + "gitlab-ci-bash-ls"@ + "` from a checkout, set `lsp."@ + "gitlab-ci-bash-ls"@
        + ".binary.path`, or disable the proxy with `languages.\"Gitlab-CI\".language_servers: [\"gitlab-ci\", \"!"@
        + "gitlab-ci-bash-ls"@ + "\"]`."@;
    &&& next.stage == Stage::Finished
    &&& next.result == Err::<Seq<char>, Seq<char>>(text)
    &&& request_of(next) == RequestModel::Finished(Err(text))
    &&& next.statuses == s.statuses.push(StatusModel::Failed(text))
}

/// Whether the download is given up for an error, and its file is to go.
pub open spec fn gives_up_with(s: InstallerModel, next: InstallerModel, error: Seq<char>) -> bool {
    next == (InstallerModel { stage: Stage::Discard, error, ..s })
}

/// What goes wrong before the download ends the installation with an error that
/// says what it was.
pub proof fn law_early_failures_are_told(
    s: InstallerModel,
    error: Seq<char>,
    places: PlacesModel,
)
    ensures
        s.stage == Stage::Locate && places.binary is None ==> fails_with(
            s,
            advanced(s, ReplyModel::Located(places)),
            "non-UTF-8 installation path"@,
        ),
        s.stage == Stage::Cached ==> fails_with(
            s,
            advanced(s, ReplyModel::Inspected(MetadataModel::Failed(error))),
            "cannot inspect "@ + s.binary + ": "@ + error,
        ),
        s.stage == Stage::CachedExecutable ==> fails_with(
            s,
            advanced(s, ReplyModel::Done(Err(error))),
            error,
        ),
        s.stage == Stage::Release ==> fails_with(
            s,
            advanced(s, ReplyModel::Released(Err(error))),
            error,
        ),
        s.stage == Stage::Directory ==> fails_with(
            s,
            advanced(s, ReplyModel::Done(Err(error))),
            "cannot create "@ + s.directory + ": "@ + error,
        ),
        s.stage == Stage::Directory && s.staging is None ==> fails_with(
            s,
            advanced(s, ReplyModel::Done(Ok(()))),
            "non-UTF-8 download path"@,
        ),
        s.stage == Stage::Stale && s.staging is Some ==> fails_with(
            s,
            advanced(s, ReplyModel::Removed(RemovalModel::Failed(error))),
            "cannot remove "@ + s.staging->Some_0 + ": "@ + error,
        ),
{
}

/// What goes wrong from the download on discards the file, and ends with the
/// error that says what it was, however the discarding went.
pub proof fn law_late_failures_are_told(
    s: InstallerModel,
    error: Seq<char>,
    metadata: MetadataModel,
    done: Result<(), Seq<char>>,
)
    requires
        s.staging is Some,
    ensures
        s.stage == Stage::Download || s.stage == Stage::Executable ==> gives_up_with(
            s,
            advanced(s, ReplyModel::Done(Err(error))),
            error,
        ),
        s.stage == Stage::Downloaded ==> gives_up_with(
            s,
            advanced(s, ReplyModel::Inspected(MetadataModel::Failed(error))),
            "cannot inspect "@ + s.staging->Some_0 + ": "@ + error,
        ),
        s.stage == Stage::Downloaded && (metadata is Missing || (metadata matches MetadataModel::Found {
            is_file,
            length,
        } && (!is_file || length <= 0))) ==> gives_up_with(
            s,
            advanced(s, ReplyModel::Inspected(metadata)),
            "download did not produce a nonempty executable"@,
        ),
        s.stage == Stage::Replace ==> gives_up_with(
            s,
            advanced(s, ReplyModel::Removed(RemovalModel::Failed(error))),
            "cannot remove "@ + s.binary + ": "@ + error,
        ),
        s.stage == Stage::Rename ==> gives_up_with(
            s,
            advanced(s, ReplyModel::Done(Err(error))),
            "cannot finish installation to "@ + s.binary + ": "@ + error,
        ),
        s.stage == Stage::Discard ==> fails_with(s, advanced(s, ReplyModel::Done(done)), s.error),
{
}

/// A release of another version, or without the asset for the platform, is an
/// error that says so. Of several assets with the name the first one counts.
pub proof fn law_releases_are_checked(
    s: InstallerModel,
    os: Os,
    architecture: Architecture,
    release: ReleaseModel,
    i: int,
)
    requires
        s.stage == Stage::Release,
        s.platform == Some((os, architecture)),
    ensures
        ({
            let next = advanced(s, ReplyModel::Released(Ok(release)));
            let name = asset_name(os, architecture);
            let here = |k: int| 0 <= k < release.assets.len() && release.assets[k].0 == name;
            &&& release.version != "v2.0.0"@ ==> fails_with(
                s,
                next,
                "expected release "@ + "v2.0.0"@ + ", got "@ + release.version,
            )
            &&& release.version == "v2.0.0"@ && (forall|k: int| !#[trigger] here(k)) ==> fails_with(
                s,
                next,
                "release asset `"@ + name + "` is missing"@,
            )
            &&& release.version == "v2.0.0"@ && here(i) && (forall|k: int|
                k < i ==> !#[trigger] here(k)) ==> next == (InstallerModel {
                stage: Stage::Directory,
                url: release.assets[i].1,
                ..s
            })
        }),
{
    let name = asset_name(os, architecture);
    let here = |k: int| 0 <= k < release.assets.len() && release.assets[k].0 == name;
    lemma_first_from(release.assets, is_named(name), 0);
    if let Some(j) = first_index(release.assets, is_named(name)) {
        assert(here(j));
    }
    if here(i) && (forall|k: int| k < i ==> !#[trigger] here(k)) {
        assert forall|k: int| 0 <= k < i implies !is_named(name)(
            #[trigger] release.assets[k],
        ) by {
            assert(!here(k));
        }
        lemma_first_from_is(release.assets, is_named(name), 0, i);
    }
}

/// What is found out is kept: the platform, and the places of the proxy and of
/// its download there.
pub proof fn law_findings_are_kept(
    s: InstallerModel,
    os: Os,
    architecture: Architecture,
    places: PlacesModel,
)
    ensures
        s.stage == Stage::Which ==> advanced(s, ReplyModel::Which(None)) == (InstallerModel {
            stage: Stage::Platform,
            ..s
        }),
        s.stage == Stage::Platform && target_of(os, architecture) is Some ==> advanced(
            s,
            ReplyModel::Platform(os, architecture),
        ) == (InstallerModel { stage: Stage::Locate, platform: Some((os, architecture)), ..s }),
        s.stage == Stage::Locate && places.binary is Some ==> advanced(
            s,
            ReplyModel::Located(places),
        ) == (InstallerModel {
            stage: Stage::Cached,
            directory: places.directory,
            binary: places.binary->Some_0,
            staging: places.staging,
            ..s
        }),
{
}

/// A file in the cache is used if it is not empty; otherwise the release is
/// looked for, and the user is told.
pub proof fn law_caches_are_checked(s: InstallerModel, is_file: bool, length: int)
    requires
        s.stage == Stage::Cached,
    ensures
        is_file && length > 0 ==> advanced(
            s,
            ReplyModel::Inspected(MetadataModel::Found { is_file, length }),
        ) == (InstallerModel { stage: Stage::CachedExecutable, ..s }),
        ({
            let missed = InstallerModel {
                stage: Stage::Release,
                statuses: s.statuses.push(StatusModel::CheckingForUpdate),
                ..s
            };
            &&& !is_file || length <= 0 ==> advanced(
                s,
                ReplyModel::Inspected(MetadataModel::Found { is_file, length }),
            ) == missed
            &&& advanced(s, ReplyModel::Inspected(MetadataModel::Missing)) == missed
        }),
{
}

/// A download goes beside the place of the proxy, when the way is free, and is
/// put there when it is complete and executable. Each step follows from the one
/// before it, the user is told of the download, and the path of the proxy is
/// the result.
pub proof fn law_downloads_go_step_by_step(
    s: InstallerModel,
    removal: RemovalModel,
    length: int,
)
    requires
        !(removal is Failed),
        length > 0,
    ensures
        ({
            let done = advanced(s, ReplyModel::Done(Ok(())));
            let removed = advanced(s, ReplyModel::Removed(removal));
            let file = MetadataModel::Found { is_file: true, length };
            let inspected = advanced(s, ReplyModel::Inspected(file));
            let over = InstallerModel {
                stage: Stage::Finished,
                result: Ok(s.binary),
                statuses: s.statuses.push(StatusModel::Idle),
                ..s
            };
            &&& s.stage == Stage::Directory && s.staging is Some ==> done == (InstallerModel {
                stage: Stage::Stale,
                ..s
            })
            &&& s.stage == Stage::Stale ==> removed == (InstallerModel {
                stage: Stage::Download,
                statuses: s.statuses.push(StatusModel::Downloading),
                ..s
            })
            &&& s.stage == Stage::Download ==> done == (InstallerModel {
                stage: Stage::Downloaded,
                ..s
            })
            &&& s.stage == Stage::Downloaded ==> inspected == (InstallerModel {
                stage: Stage::Executable,
                ..s
            })
            &&& s.stage == Stage::Executable ==> done == (InstallerModel {
                stage: Stage::Replace,
                ..s
            })
            &&& s.stage == Stage::Replace ==> removed == (InstallerModel {
                stage: Stage::Rename,
                ..s
            })
            &&& s.stage == Stage::Rename || s.stage == Stage::CachedExecutable ==> done == over
        }),
{
}

/// Every stage asks for one thing, about the files of the platform.
pub proof fn law_stages_ask_for_their_files(s: InstallerModel, os: Os, architecture: Architecture)
    requires
        s.platform == Some((os, architecture)),
    ensures
        ({
            let directory = cache_path(target_of(os, architecture)->Some_0);
            let binary = binary_place(os, architecture);
            let staging = staging_place(os, architecture);
            let executable = executable_of(os);
            let asked = request_of(s);
            &&& s.stage == Stage::Which ==> asked == RequestModel::Which
            &&& s.stage == Stage::Platform ==> asked == RequestModel::Platform
            &&& s.stage == Stage::Locate ==> asked == RequestModel::Locate(
                directory,
                executable,
                executable + ".download"@,
            )
            &&& s.stage == Stage::Cached ==> asked == RequestModel::Inspect(binary)
            &&& s.stage == Stage::CachedExecutable ==> asked == RequestModel::MakeExecutable(binary)
            &&& s.stage == Stage::Release ==> asked == RequestModel::Release
            &&& s.stage == Stage::Directory ==> asked == RequestModel::CreateDirectory(directory)
            &&& s.stage == Stage::Stale ==> asked == RequestModel::Remove(staging)
            &&& s.stage == Stage::Download ==> asked == RequestModel::Download(s.url, staging)
            &&& s.stage == Stage::Downloaded ==> asked == RequestModel::Inspect(staging)
            &&& s.stage == Stage::Executable ==> asked == RequestModel::MakeExecutable(staging)
            &&& s.stage == Stage::Replace ==> asked == RequestModel::Remove(binary)
            &&& s.stage == Stage::Rename ==> asked == RequestModel::Rename(staging, binary)
            &&& s.stage == Stage::Discard ==> asked == RequestModel::Discard(staging)
            &&& s.stage == Stage::Finished ==> asked == RequestModel::Finished(s.result)
        }),
{
}

/// A reply that does not belong to the request changes nothing.
pub proof fn law_other_replies_change_nothing(s: InstallerModel, reply: ReplyModel)
    requires
        match s.stage {
            Stage::Which => !(reply is Which),
            Stage::Platform => !(reply is Platform),
            Stage::Locate => !(reply is Located),
            Stage::Cached | Stage::Downloaded => !(reply is Inspected),
            Stage::Release => !(reply is Released),
            Stage::Stale | Stage::Replace => !(reply is Removed),
            Stage::Finished => true,
            _ => !(reply is Done),
        },
    ensures
        advanced(s, reply) == s,
{
}

/// A configured path, and a proxy on `PATH`, are the result as they are, and the
/// installation is over. Otherwise nothing is known at the start, and nothing
/// has been said.
pub proof fn law_known_proxies_end_the_installation(s: InstallerModel, path: Seq<char>)
    ensures
        started(Some(path)).stage == Stage::Finished,
        started(Some(path)).result == Ok::<Seq<char>, Seq<char>>(path),
        started(Some(path)).statuses == seq![StatusModel::Idle],
        started(None).stage == Stage::Which,
        started(None).platform is None,
        started(None).statuses == Seq::<StatusModel>::empty(),
        s.stage == Stage::Which ==> advanced(s, ReplyModel::Which(Some(path))) == (
        InstallerModel {
            stage: Stage::Finished,
            result: Ok(path),
            statuses: s.statuses.push(StatusModel::Idle),
            ..s
        }),
{
    assert(started(Some(path)).statuses =~= seq![StatusModel::Idle]);
}

} // verus!
