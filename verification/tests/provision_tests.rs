use jitstreamer::mounts::{MountPoll, MountStatus, MountWorker, MOUNT_ATTEMPTS};
use jitstreamer::provision::{
    dmg_cache_paths, DmgProvisioner, ProvisionAction, ProvisionError, ProvisionEvent,
    ProvisionState,
};

/// A counting fake of the network collaborator: it serves one mirror index
/// and an archive, and tallies every network touch. The fake "filesystem"
/// remembers whether the cache holds the image pair.
struct FakeNetwork {
    fetches: usize,
    downloads: usize,
    cache_present: bool,
}

impl FakeNetwork {
    fn drive(&mut self, p: &mut DmgProvisioner) -> Result<bool, ProvisionError> {
        loop {
            match p.next_action() {
                ProvisionAction::CheckCacheFiles => {
                    p.handle(ProvisionEvent::CacheChecked { both_present: self.cache_present });
                }
                ProvisionAction::FetchMirror { idx: _ } => {
                    self.fetches += 1;
                    p.handle(ProvisionEvent::VersionListed {
                        url: "http://mirror.example/14.2.zip".to_string(),
                    });
                }
                ProvisionAction::DownloadAndInstall { url } => {
                    assert_eq!(url, "http://mirror.example/14.2.zip");
                    self.downloads += 1;
                    self.cache_present = true;
                    p.handle(ProvisionEvent::Installed);
                }
                ProvisionAction::Finish => {
                    return Ok(matches!(p.state, ProvisionState::Done { downloaded: true }));
                }
                ProvisionAction::Fail { error } => return Err(error),
            }
        }
    }
}

#[test]
fn second_provision_run_hits_the_cache_without_network() {
    let mut net = FakeNetwork { fetches: 0, downloads: 0, cache_present: false };
    let mirrors = vec!["http://mirror.example/versions.json".to_string()];

    let mut first = DmgProvisioner::new(mirrors.clone());
    assert!(net.drive(&mut first).unwrap());
    assert_eq!(net.fetches, 1);
    assert_eq!(net.downloads, 1);

    let mut second = DmgProvisioner::new(mirrors);
    assert!(!net.drive(&mut second).unwrap());
    // The second run hit the cache fast path: no further network I/O.
    assert_eq!(net.fetches, 1);
    assert_eq!(net.downloads, 1);
}

#[test]
fn provision_tries_mirrors_in_order_and_reports_version_not_found() {
    let mirrors = vec!["http://a".to_string(), "http://b".to_string()];
    let mut p = DmgProvisioner::new(mirrors);
    p.handle(ProvisionEvent::CacheChecked { both_present: false });
    assert!(matches!(p.next_action(), ProvisionAction::FetchMirror { idx: 0 }));
    p.handle(ProvisionEvent::VersionNotListed);
    assert!(matches!(p.next_action(), ProvisionAction::FetchMirror { idx: 1 }));
    p.handle(ProvisionEvent::VersionNotListed);
    assert!(matches!(
        p.next_action(),
        ProvisionAction::Fail { error: ProvisionError::VersionNotFound }
    ));
}

#[test]
fn provision_unreachable_mirror_is_a_download_error() {
    let mut p = DmgProvisioner::new(vec!["http://a".to_string()]);
    p.handle(ProvisionEvent::CacheChecked { both_present: false });
    p.handle(ProvisionEvent::MirrorUnreachable);
    assert!(matches!(
        p.next_action(),
        ProvisionAction::Fail { error: ProvisionError::DownloadError }
    ));
}

#[test]
fn provision_failed_install_is_a_download_error() {
    let mut p = DmgProvisioner::new(vec!["http://a".to_string()]);
    p.handle(ProvisionEvent::CacheChecked { both_present: false });
    p.handle(ProvisionEvent::VersionListed { url: "http://a/x.zip".to_string() });
    p.handle(ProvisionEvent::InstallFailed);
    assert!(matches!(
        p.next_action(),
        ProvisionAction::Fail { error: ProvisionError::DownloadError }
    ));
}

#[test]
fn provision_without_mirrors_cannot_find_any_version() {
    let mut p = DmgProvisioner::new(Vec::new());
    p.handle(ProvisionEvent::CacheChecked { both_present: false });
    assert!(matches!(
        p.next_action(),
        ProvisionAction::Fail { error: ProvisionError::VersionNotFound }
    ));
}

#[test]
fn dmg_cache_paths_join_directory_version_and_suffixes() {
    let (image, signature) = dmg_cache_paths("dmg_files", "14.2");
    assert_eq!(image, "dmg_files/14.2.dmg");
    assert_eq!(signature, "dmg_files/14.2.dmg.signature");
}

#[test]
fn mount_status_poll_lifecycle() {
    let mut m = MountStatus::new();
    assert!(matches!(m.poll("U1"), MountPoll::NotMounting));
    m.set("U1", String::new());
    assert!(matches!(m.poll("U1"), MountPoll::InProgress));
    assert!(matches!(m.poll("U1"), MountPoll::InProgress));
    m.set("U1", "Error mounting image: device went away".to_string());
    match m.poll("U1") {
        MountPoll::Finished(msg) => assert_eq!(msg, "Error mounting image: device went away"),
        _ => panic!("a terminal message should be handed over"),
    }
    // The terminal message was consumed.
    assert!(matches!(m.poll("U1"), MountPoll::NotMounting));
}

#[test]
fn mount_status_remove_clears_entry() {
    let mut m = MountStatus::new();
    m.set("U1", String::new());
    m.set("U2", "done".to_string());
    m.remove("U1");
    assert!(matches!(m.poll("U1"), MountPoll::NotMounting));
    assert!(matches!(m.poll("U2"), MountPoll::Finished(_)));
}

#[test]
fn mount_worker_retries_exactly_its_budget() {
    let mut w = MountWorker::new();
    assert_eq!(MOUNT_ATTEMPTS, 5);
    let mut failures = 0;
    loop {
        failures += 1;
        if !w.retry_after_failure() {
            break;
        }
    }
    assert_eq!(failures, 5);
}
