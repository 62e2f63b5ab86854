//! The developer-disk-image provisioner. Resolving an OS version to an
//! image-and-signature pair is a little protocol with the outside world:
//! check the cache, query the configured mirror indexes in order, download
//! and install the first hit. The decisions live here as a state machine
//! with exact transitions; the caller performs the file and network work an
//! action asks for and feeds the outcome back as the next event. When both
//! cache files are present the machine is done at once: no mirror is
//! queried and nothing is downloaded.

use vstd::prelude::*;

verus! {

/// Why provisioning failed.
#[derive(Debug)]
pub enum ProvisionError {
    /// No configured mirror lists the version.
    VersionNotFound,
    /// A mirror or the archive could not be fetched, or the archive could
    /// not be installed.
    DownloadError,
}

/// Where the provisioner stands.
pub enum ProvisionState {
    /// Waiting to learn whether both cache files exist.
    CheckCache,
    /// Waiting for mirror `idx`'s index document.
    QueryMirror { idx: usize },
    /// Waiting for the archive at `url` to be downloaded and installed.
    Install { url: String },
    /// The image and signature are in the cache. `downloaded` says whether
    /// network work was done or the cache already held them.
    Done { downloaded: bool },
    /// Provisioning failed for good.
    Failed { error: ProvisionError },
}

/// What the outside world reports back.
pub enum ProvisionEvent {
    /// Whether both the image and its signature are already cached.
    CacheChecked { both_present: bool },
    /// The mirror's index could not be fetched.
    MirrorUnreachable,
    /// The mirror's index does not list the version.
    VersionNotListed,
    /// The mirror's index lists the version at this URL.
    VersionListed { url: String },
    /// The archive was downloaded and the image and signature moved into
    /// the cache.
    Installed,
    /// Downloading or installing the archive failed.
    InstallFailed,
}

/// What the caller is asked to do next.
pub enum ProvisionAction {
    /// Check whether both cache files exist.
    CheckCacheFiles,
    /// Fetch mirror `idx`'s index document.
    FetchMirror { idx: usize },
    /// Download the archive at `url` and install image and signature.
    DownloadAndInstall { url: String },
    /// Done: the cache holds the pair.
    Finish,
    /// Give up with this error.
    Fail { error: ProvisionError },
}

/// The provisioner: the configured mirror list and where the run stands.
pub struct DmgProvisioner {
    pub mirrors: Vec<String>,
    pub state: ProvisionState,
}

impl DmgProvisioner {
    /// A mirror index under query stays within the list.
    pub open spec fn wf(self) -> bool {
        self.state matches ProvisionState::QueryMirror { idx } ==> idx < self.mirrors@.len()
    }

    /// The run is over.
    pub open spec fn done(self) -> bool {
        self.state is Done || self.state is Failed
    }

    /// Whether this event is the answer the current state waits for.
    pub open spec fn expects(self, event: ProvisionEvent) -> bool {
        match self.state {
            ProvisionState::CheckCache => event is CacheChecked,
            ProvisionState::QueryMirror { .. } => event is MirrorUnreachable
                || event is VersionNotListed || event is VersionListed,
            ProvisionState::Install { .. } => event is Installed || event is InstallFailed,
            ProvisionState::Done { .. } => false,
            ProvisionState::Failed { .. } => false,
        }
    }

    /// A fresh run over these mirrors, about to check the cache.
    pub fn new(mirrors: Vec<String>) -> (p: DmgProvisioner)
        ensures
            p.wf(),
            p.mirrors == mirrors,
            p.state == ProvisionState::CheckCache,
    {
        DmgProvisioner { mirrors, state: ProvisionState::CheckCache }
    }

    /// The work the caller should do now. A finished run asks only to be
    /// read out: it never asks for a mirror fetch or a download again.
    pub fn next_action(&self) -> (r: ProvisionAction)
        requires
            self.wf(),
        ensures
            self.state is CheckCache ==> r == ProvisionAction::CheckCacheFiles,
            self.state matches ProvisionState::QueryMirror { idx } ==> r == (
            ProvisionAction::FetchMirror { idx }),
            self.state matches ProvisionState::Install { url } ==> r == (
            ProvisionAction::DownloadAndInstall { url }),
            self.state is Done ==> r == ProvisionAction::Finish,
            self.state matches ProvisionState::Failed { error } ==> r == (ProvisionAction::Fail {
                error,
            }),
    {
        match &self.state {
            ProvisionState::CheckCache => ProvisionAction::CheckCacheFiles,
            ProvisionState::QueryMirror { idx } => ProvisionAction::FetchMirror { idx: *idx },
            ProvisionState::Install { url } => ProvisionAction::DownloadAndInstall {
                url: url.clone(),
            },
            ProvisionState::Done { .. } => ProvisionAction::Finish,
            ProvisionState::Failed { error } => ProvisionAction::Fail {
                error: match error {
                    ProvisionError::VersionNotFound => ProvisionError::VersionNotFound,
                    ProvisionError::DownloadError => ProvisionError::DownloadError,
                },
            },
        }
    }

    /// Feeds the outcome of the last action in. A present cache ends the run
    /// at once with nothing downloaded; a missing version moves to the next
    /// mirror, and past the last mirror the version is not to be found; an
    /// unreachable mirror or a failed install ends the run with a download
    /// error.
    pub fn handle(&mut self, event: ProvisionEvent)
        requires
            old(self).wf(),
            old(self).expects(event),
        ensures
            final(self).wf(),
            final(self).mirrors == old(self).mirrors,
            old(self).state is CheckCache ==> final(self).state == (match event {
                ProvisionEvent::CacheChecked { both_present } => {
                    if both_present {
                        ProvisionState::Done { downloaded: false }
                    } else if old(self).mirrors@.len() > 0 {
                        ProvisionState::QueryMirror { idx: 0 }
                    } else {
                        ProvisionState::Failed { error: ProvisionError::VersionNotFound }
                    }
                },
                _ => final(self).state,
            }),
            old(self).state matches ProvisionState::QueryMirror { idx } ==> final(self).state == (
            match event {
                ProvisionEvent::MirrorUnreachable => ProvisionState::Failed {
                    error: ProvisionError::DownloadError,
                },
                ProvisionEvent::VersionNotListed => {
                    if idx + 1 < old(self).mirrors@.len() {
                        ProvisionState::QueryMirror { idx: (idx + 1) as usize }
                    } else {
                        ProvisionState::Failed { error: ProvisionError::VersionNotFound }
                    }
                },
                ProvisionEvent::VersionListed { url } => ProvisionState::Install { url },
                _ => final(self).state,
            }),
            (old(self).state is Install) ==> final(self).state == (match event {
                ProvisionEvent::Installed => ProvisionState::Done { downloaded: true },
                ProvisionEvent::InstallFailed => ProvisionState::Failed {
                    error: ProvisionError::DownloadError,
                },
                _ => final(self).state,
            }),
    {
        let next = match (&self.state, event) {
            (ProvisionState::CheckCache, ProvisionEvent::CacheChecked { both_present }) => {
                if both_present {
                    ProvisionState::Done { downloaded: false }
                } else if self.mirrors.len() > 0 {
                    ProvisionState::QueryMirror { idx: 0 }
                } else {
                    ProvisionState::Failed { error: ProvisionError::VersionNotFound }
                }
            },
            (ProvisionState::QueryMirror { .. }, ProvisionEvent::MirrorUnreachable) => {
                ProvisionState::Failed { error: ProvisionError::DownloadError }
            },
            (ProvisionState::QueryMirror { idx }, ProvisionEvent::VersionNotListed) => {
                let last = self.mirrors.len() - 1;
                if *idx < last {
                    ProvisionState::QueryMirror { idx: *idx + 1 }
                } else {
                    ProvisionState::Failed { error: ProvisionError::VersionNotFound }
                }
            },
            (ProvisionState::QueryMirror { .. }, ProvisionEvent::VersionListed { url }) => {
                ProvisionState::Install { url }
            },
            (ProvisionState::Install { .. }, ProvisionEvent::Installed) => {
                ProvisionState::Done { downloaded: true }
            },
            (ProvisionState::Install { .. }, ProvisionEvent::InstallFailed) => {
                ProvisionState::Failed { error: ProvisionError::DownloadError }
            },
            (_, _) => {
                proof {
                    assert(false);
                }
                ProvisionState::CheckCache
            },
        };
        self.state = next;
    }
}

/// The cache paths for a version's image and signature under the DMG
/// directory.
pub fn dmg_cache_paths(dmg_path: &str, version: &str) -> (r: (String, String))
    ensures
        r.0@ == dmg_path@ + "/"@ + version@ + ".dmg"@,
        r.1@ == dmg_path@ + "/"@ + version@ + ".dmg.signature"@,
{
    let mut image: String = dmg_path.to_owned();
    image.append("/");
    image.append(version);
    image.append(".dmg");
    let mut signature: String = dmg_path.to_owned();
    signature.append("/");
    signature.append(version);
    signature.append(".dmg.signature");
    proof {
        assert(signature@ =~= dmg_path@ + "/"@ + version@ + ".dmg.signature"@);
        assert(image@ =~= dmg_path@ + "/"@ + version@ + ".dmg"@);
    }
    (image, signature)
}

/// The archive URL a mirror's index document files under a version, if the
/// document is a JSON object holding a string there. The lookup is the JSON
/// library's work; its result depends on the document text and the version
/// alone, so it carries this name and nothing more.
pub uninterp spec fn url_of(index: Seq<char>, version: Seq<char>) -> Option<Seq<char>>;

/// Relies on serde_json — from_str, Value::get and Value::as_str: parses the
/// index document and reads the string under the version key; an unparsable
/// document, a missing key or a non-string value is nothing. The result is a
/// function of the two texts alone, named `url_of`.
#[verifier::external_body]
fn lookup_version_url(index_text: &str, version: &str) -> (r: Option<String>)
    ensures
        match r {
            Some(u) => url_of(index_text@, version@) == Some(u@),
            None => url_of(index_text@, version@) is None,
        },
{
    let doc: serde_json::Value = match serde_json::from_str(index_text) {
        Ok(doc) => doc,
        Err(_) => {
            return None;
        },
    };
    doc.get(version).and_then(|v| v.as_str()).map(|s| s.to_string())
}

/// Turns one mirror's answer into the provisioner's event: an unreachable
/// mirror, a version the index does not list, or the URL it lists — exactly
/// the URL the index files under the version.
pub fn mirror_event(fetched: Option<&str>, version: &str) -> (e: ProvisionEvent)
    ensures
        fetched is None ==> e == ProvisionEvent::MirrorUnreachable,
        fetched matches Some(text) ==> (match url_of(text@, version@) {
            Some(u) => e matches ProvisionEvent::VersionListed { url } && url@ == u,
            None => e == ProvisionEvent::VersionNotListed,
        }),
{
    match fetched {
        Some(text) => match lookup_version_url(text, version) {
            Some(url) => ProvisionEvent::VersionListed { url },
            None => ProvisionEvent::VersionNotListed,
        },
        None => ProvisionEvent::MirrorUnreachable,
    }
}

} // verus!
