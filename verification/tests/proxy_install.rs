//! Finding and installing the proxy, with a host and a file system in memory.

use std::collections::BTreeMap;

use gitlab_ci_bash_ls::backend::NAME as BASH_PROXY;
use gitlab_ci_bash_ls::proxy_install::{
    nonempty_file, remove_if_present, Architecture, Installer, Metadata, Os, Places, PlatformAsset, Release, Removal, Reply, Request, Status,
    RELEASE_TAG, REPOSITORY,
};

struct FakeHost {
    on_path: Option<String>,
    platform: (Os, Architecture),
    version: String,
    assets: Vec<(String, String)>,
    release_error: Option<String>,
    content: &'static [u8],
    download_error: bool,
    chmod_error: bool,
    calls: Vec<String>,
    files: BTreeMap<String, Vec<u8>>,
}

fn binary(tag: &str, target: &str, executable: &str) -> String {
    format!("root/{BASH_PROXY}/{tag}/{target}/{executable}")
}

impl FakeHost {
    fn new(os: Os, arch: Architecture) -> Self {
        let assets = PlatformAsset::new(os, arch)
            .ok()
            .map(|asset| (asset.name(), "https://example.invalid/proxy".to_owned()))
            .into_iter()
            .collect();
        FakeHost {
            on_path: None,
            platform: (os, arch),
            version: RELEASE_TAG.to_owned(),
            assets,
            release_error: None,
            content: b"complete binary",
            download_error: false,
            chmod_error: false,
            calls: Vec::new(),
            files: BTreeMap::new(),
        }
    }

    fn called(&self, prefix: &str) -> bool {
        self.calls.iter().any(|call| call.starts_with(prefix))
    }

    fn show(&mut self, statuses: Vec<Status>) {
        for status in statuses {
            let status = match status {
                Status::Idle => "None".to_owned(),
                Status::CheckingForUpdate => "CheckingForUpdate".to_owned(),
                Status::Downloading => "Downloading".to_owned(),
                Status::Failed(error) => format!("Failed: {error}"),
            };
            self.calls.push(format!("status:{status}"));
        }
    }

    fn resolve(&mut self, configured: Option<String>) -> Result<String, String> {
        let mut installer = Installer::start(configured);
        let path = |parts: &[String]| format!("root/{}", parts.join("/"));
        loop {
            self.show(installer.take_statuses());
            let reply = match installer.request() {
                Request::Which => {
                    self.calls.push("which".to_owned());
                    Reply::Which(self.on_path.clone())
                }
                Request::Platform => {
                    self.calls.push("platform".to_owned());
                    Reply::Platform(self.platform.0, self.platform.1)
                }
                Request::Locate(directory, executable, staging) => {
                    let directory = path(&directory);
                    Reply::Located(Places {
                        binary: Some(format!("{directory}/{executable}")),
                        staging: Some(format!("{directory}/{staging}")),
                        directory,
                    })
                }
                Request::Inspect(file) => Reply::Inspected(match self.files.get(&path(&file)) {
                    Some(content) => Metadata::Found {
                        is_file: true,
                        length: content.len() as u64,
                    },
                    None => Metadata::Missing,
                }),
                Request::MakeExecutable(file) => {
                    self.calls.push(format!("chmod:{}", path(&file)));
                    Reply::Done(if self.chmod_error {
                        Err("permission denied".to_owned())
                    } else {
                        Ok(())
                    })
                }
                Request::Release => {
                    self.calls.push(format!("release:{REPOSITORY}/{RELEASE_TAG}"));
                    Reply::Released(match &self.release_error {
                        Some(error) => Err(error.clone()),
                        None => Ok(Release {
                            version: self.version.clone(),
                            assets: self.assets.clone(),
                        }),
                    })
                }
                Request::CreateDirectory(directory) => {
                    assert_eq!(directory.len(), 3);
                    Reply::Done(Ok(()))
                }
                Request::Remove(file) => Reply::Removed(match self.files.remove(&path(&file)) {
                    Some(_) => Removal::Removed,
                    None => Removal::Missing,
                }),
                Request::Download(url, file) => {
                    self.calls.push(format!("download:{url}"));
                    self.files.insert(path(&file), self.content.to_vec());
                    Reply::Done(if self.download_error {
                        Err("connection interrupted".to_owned())
                    } else {
                        Ok(())
                    })
                }
                Request::Rename(from, to) => {
                    let content = self.files.remove(&path(&from)).expect("staging file");
                    self.files.insert(path(&to), content);
                    Reply::Done(Ok(()))
                }
                Request::Discard(file) => {
                    self.files.remove(&path(&file));
                    Reply::Done(Ok(()))
                }
                Request::Finished(result) => return result,
            };
            installer.advance(reply);
        }
    }
}

#[test]
fn matches_published_asset_names() {
    for (os, arch, expected) in [
        (
            Os::Linux,
            Architecture::X8664,
            "gitlab-ci-bash-ls-x86_64-unknown-linux-musl",
        ),
        (
            Os::Linux,
            Architecture::Aarch64,
            "gitlab-ci-bash-ls-aarch64-unknown-linux-musl",
        ),
        (
            Os::Mac,
            Architecture::X8664,
            "gitlab-ci-bash-ls-x86_64-apple-darwin",
        ),
        (
            Os::Mac,
            Architecture::Aarch64,
            "gitlab-ci-bash-ls-aarch64-apple-darwin",
        ),
        (
            Os::Windows,
            Architecture::X8664,
            "gitlab-ci-bash-ls-x86_64-pc-windows-msvc.exe",
        ),
    ] {
        assert_eq!(PlatformAsset::new(os, arch).unwrap().name(), expected);
    }
}

#[test]
fn honors_overrides_then_path_even_on_unsupported_platforms() {
    let mut host = FakeHost::new(Os::Windows, Architecture::Aarch64);
    host.on_path = Some("local-proxy.exe".to_owned());
    assert_eq!(
        host.resolve(Some("explicit-proxy.exe".to_owned())).unwrap(),
        "explicit-proxy.exe"
    );
    assert!(!host.called("which"));
    assert!(!host.called("platform"));
    assert_eq!(host.resolve(None).unwrap(), "local-proxy.exe");
    assert!(!host.called("platform"));
    assert!(!host.called("release:"));
}

#[test]
fn completed_cache_is_reused_without_network() {
    let mut host = FakeHost::new(Os::Linux, Architecture::X8664);
    let path = binary(RELEASE_TAG, "x86_64-unknown-linux-musl", BASH_PROXY);
    host.files.insert(path.clone(), b"cached executable".to_vec());
    host.release_error = Some("offline".to_owned());
    assert_eq!(host.resolve(None).unwrap(), path);
    assert!(!host.called("release:"));
    assert!(!host.called("download:"));
    assert!(host.called("chmod:"));
}

#[test]
fn path_wins_over_cache() {
    let mut host = FakeHost::new(Os::Linux, Architecture::X8664);
    let cached = host.resolve(None).unwrap();
    assert!(host.files.contains_key(&cached));
    host.calls.clear();
    host.on_path = Some("user-proxy".to_owned());
    assert_eq!(host.resolve(None).unwrap(), "user-proxy");
    assert!(!host.called("platform"));
}

#[test]
fn downloads_exact_version_and_publishes_only_finished_files() {
    for (os, arch, target, executable) in [
        (
            Os::Linux,
            Architecture::X8664,
            "x86_64-unknown-linux-musl",
            BASH_PROXY,
        ),
        (
            Os::Windows,
            Architecture::X8664,
            "x86_64-pc-windows-msvc",
            "gitlab-ci-bash-ls.exe",
        ),
    ] {
        let mut host = FakeHost::new(os, arch);
        let installed = host.resolve(None).unwrap();
        let expected = binary(RELEASE_TAG, target, executable);
        assert_eq!(installed, expected);
        assert_eq!(host.files[&installed], b"complete binary");
        assert!(!host.files.contains_key(&format!("{expected}.download")));
        let calls = &host.calls;
        assert!(
            calls
                .iter()
                .any(|call| call == &format!("release:{REPOSITORY}/{RELEASE_TAG}"))
        );
        let download = calls
            .iter()
            .position(|call| call.starts_with("download:"))
            .unwrap();
        let chmod = calls
            .iter()
            .position(|call| call.starts_with("chmod:"))
            .unwrap();
        assert!(download < chmod);
        assert!(calls[chmod].ends_with(".download"));
        assert_eq!(calls.last().unwrap(), "status:None");
    }
}

#[test]
fn interrupted_empty_and_non_executable_downloads_never_enter_cache() {
    for failure in ["interrupted", "empty", "chmod"] {
        let mut host = FakeHost::new(Os::Linux, Architecture::X8664);
        match failure {
            "interrupted" => host.download_error = true,
            "empty" => host.content = b"",
            "chmod" => host.chmod_error = true,
            _ => unreachable!(),
        }
        assert!(host.resolve(None).is_err());
        let expected = binary(RELEASE_TAG, "x86_64-unknown-linux-musl", BASH_PROXY);
        assert!(!host.files.contains_key(&expected));
        assert!(!host.files.contains_key(&format!("{expected}.download")));
        assert!(host.called("status:Failed"));
        host.download_error = false;
        host.chmod_error = false;
        host.content = b"retried binary";
        let path = host.resolve(None).unwrap();
        assert_eq!(host.files[&path], b"retried binary");
    }
}

#[test]
fn empty_cache_and_stale_partial_download_are_replaced() {
    let mut host = FakeHost::new(Os::Linux, Architecture::X8664);
    let expected = binary(RELEASE_TAG, "x86_64-unknown-linux-musl", BASH_PROXY);
    host.files.insert(expected.clone(), b"".to_vec());
    host.files.insert(format!("{expected}.download"), b"stale data".to_vec());
    let path = host.resolve(None).unwrap();
    assert_eq!(host.files[&path], b"complete binary");
    assert!(host.called("download:"));
}

#[test]
fn mismatched_caches_are_not_used_or_deleted_when_offline() {
    let mut host = FakeHost::new(Os::Linux, Architecture::X8664);
    for (tag, target) in [
        ("v0.0.0", "x86_64-unknown-linux-musl"),
        (RELEASE_TAG, "aarch64-unknown-linux-musl"),
    ] {
        let old = binary(tag, target, BASH_PROXY);
        host.files.insert(old.clone(), b"other executable".to_vec());
        host.release_error = Some("offline".to_owned());
        let error = host.resolve(None).unwrap_err();
        assert!(error.contains("offline"));
        assert!(error.contains(RELEASE_TAG));
        assert!(error.contains("binary.path"));
        assert!(host.files.contains_key(&old));
    }
}

#[test]
fn reports_missing_assets_wrong_tags_and_unsupported_platforms() {
    let mut host = FakeHost::new(Os::Linux, Architecture::X8664);
    host.assets.clear();
    assert!(
        host.resolve(None)
            .unwrap_err()
            .contains("gitlab-ci-bash-ls-x86_64-unknown-linux-musl")
    );
    host.version = "v0.0.0".to_owned();
    assert!(host.resolve(None).unwrap_err().contains("expected release"));
    assert!(!host.called("download:"));
    for (os, arch) in [
        (Os::Windows, Architecture::Aarch64),
        (Os::Linux, Architecture::X86),
    ] {
        let mut host = FakeHost::new(os, arch);
        assert!(host.resolve(None).unwrap_err().contains("no prebuilt proxy"));
        assert!(!host.called("release:"));
    }
}

#[test]
fn failures_are_told_in_full() {
    let mut host = FakeHost::new(Os::Windows, Architecture::X86);
    assert_eq!(
        host.resolve(None).unwrap_err(),
        "Could not install gitlab-ci-bash-ls from tzabbi/zed-gitlab-ci-ls (v2.0.0): no prebuilt \
         proxy for Os::Windows/Architecture::X86. Check your network access and that the release \
         contains the matching asset. Alternatively, run `cargo install --locked --path \
         gitlab-ci-bash-ls` from a checkout, set `lsp.gitlab-ci-bash-ls.binary.path`, or disable \
         the proxy with `languages.\"Gitlab-CI\".language_servers: [\"gitlab-ci\", \
         \"!gitlab-ci-bash-ls\"]`."
    );
}

/// The error of an installation that is told `replies` in turn.
fn failure(replies: Vec<Reply>) -> String {
    let mut installer = Installer::start(None);
    for reply in replies {
        installer.advance(reply);
    }
    match installer.request() {
        Request::Finished(Err(error)) => error,
        other => panic!("{other:?}"),
    }
}

fn located(binary: Option<&str>, staging: Option<&str>) -> Vec<Reply> {
    vec![
        Reply::Which(None),
        Reply::Platform(Os::Linux, Architecture::X8664),
        Reply::Located(Places {
            directory: "dir".to_owned(),
            binary: binary.map(str::to_owned),
            staging: staging.map(str::to_owned),
        }),
    ]
}

fn with(mut replies: Vec<Reply>, more: Vec<Reply>) -> Vec<Reply> {
    replies.extend(more);
    replies
}

fn released() -> Reply {
    Reply::Released(Ok(Release {
        version: RELEASE_TAG.to_owned(),
        assets: vec![(
            "gitlab-ci-bash-ls-x86_64-unknown-linux-musl".to_owned(),
            "url".to_owned(),
        )],
    }))
}

#[test]
fn every_step_that_fails_ends_the_installation_with_its_error() {
    let here = || located(Some("bin"), Some("part"));
    let error = || "broken".to_owned();
    let missing = || Reply::Inspected(Metadata::Missing);
    let there = || Reply::Inspected(Metadata::Found { is_file: true, length: 1 });
    let unknown = || Reply::Inspected(Metadata::Failed(error()));
    let done = || Reply::Done(Ok(()));
    let not_done = || Reply::Done(Err(error()));
    let removed = || Reply::Removed(Removal::Removed);
    let not_removed = || Reply::Removed(Removal::Failed(error()));
    let begun = || with(here(), vec![missing(), released(), done(), removed(), done()]);
    for (replies, expected) in [
        (located(None, None), "non-UTF-8 installation path"),
        (with(here(), vec![unknown()]), "cannot inspect bin: broken"),
        (with(here(), vec![there(), not_done()]), "broken"),
        (
            with(here(), vec![missing(), released(), not_done()]),
            "cannot create dir: broken",
        ),
        (
            with(located(Some("bin"), None), vec![missing(), released(), done()]),
            "non-UTF-8 download path",
        ),
        (
            with(here(), vec![missing(), released(), done(), not_removed()]),
            "cannot remove part: broken",
        ),
        (with(begun(), vec![unknown(), done()]), "cannot inspect part: broken"),
        (
            with(begun(), vec![missing(), done()]),
            "download did not produce a nonempty executable",
        ),
        (
            with(begun(), vec![there(), done(), not_removed(), done()]),
            "cannot remove bin: broken",
        ),
        (
            with(begun(), vec![there(), done(), removed(), not_done(), not_done()]),
            "cannot finish installation to bin: broken",
        ),
    ] {
        let found = failure(replies);
        assert!(found.contains(&format!("): {expected}. Check")), "{found}");
    }
}

#[test]
fn files_are_in_the_cache_for_the_version_and_the_platform() {
    let asset = PlatformAsset::new(Os::Windows, Architecture::X8664).unwrap();
    let directory = ["gitlab-ci-bash-ls", "v2.0.0", "x86_64-pc-windows-msvc"];
    assert_eq!(asset.cache(), directory);
    assert_eq!(asset.staging(), "gitlab-ci-bash-ls.exe.download");
    assert_eq!(asset.binary_place()[..3], directory);
    assert_eq!(asset.binary_place()[3], "gitlab-ci-bash-ls.exe");
    assert_eq!(asset.staging_place()[..3], directory);
    assert_eq!(asset.staging_place()[3], "gitlab-ci-bash-ls.exe.download");

    let mut installer = Installer::start(None);
    installer.advance(Reply::Which(None));
    installer.advance(Reply::Platform(Os::Windows, Architecture::X8664));
    match installer.request() {
        Request::Locate(parts, executable, staging) => {
            assert_eq!(parts, directory);
            assert_eq!(executable, "gitlab-ci-bash-ls.exe");
            assert_eq!(staging, "gitlab-ci-bash-ls.exe.download");
        }
        other => panic!("{other:?}"),
    }
}

#[test]
fn only_files_with_content_count() {
    let found = |is_file, length| nonempty_file(Metadata::Found { is_file, length }, "p");
    assert_eq!(found(true, 1), Ok(true));
    assert_eq!(found(true, 0), Ok(false));
    assert_eq!(found(false, 4096), Ok(false));
    assert_eq!(nonempty_file(Metadata::Missing, "p"), Ok(false));
    assert_eq!(
        nonempty_file(Metadata::Failed("e".to_owned()), "p"),
        Err("cannot inspect p: e".to_owned())
    );
    assert_eq!(remove_if_present(Removal::Removed, "p"), Ok(()));
    assert_eq!(remove_if_present(Removal::Missing, "p"), Ok(()));
    assert_eq!(
        remove_if_present(Removal::Failed("e".to_owned()), "p"),
        Err("cannot remove p: e".to_owned())
    );
}
