use vstd::prelude::*;
use crate::bytes::{bytes_eq, copy_bytes, push_bytes};
use crate::digest::{
    digest_eq, spec_canonical, valid_digest, Algorithm, ContentDigest,
};
use crate::errors::ErrorKind;
use crate::hashing::{hasher_fed, hasher_live, hasher_new, hasher_update, hasher_finish, sha256_hex};
use crate::name::{check_repo_name, check_tag, valid_repo_name, valid_tag};

verus! {

/// The key under which a digest addresses content: its canonical form.
pub open spec fn dkey(d: ContentDigest) -> Seq<u8> {
    spec_canonical(d.alg, d.hex@)
}

/// An admissible manifest reference for given manifest bytes: a digest
/// reference must equal the digest of the bytes; anything else must be a
/// well-formed tag.
pub open spec fn reference_admissible(reference: Seq<u8>, bytes: Seq<u8>) -> bool {
    if crate::digest::digest_parseable(reference) {
        reference == spec_canonical(Algorithm::Sha256, sha256_hex(bytes))
    } else {
        valid_tag(reference)
    }
}

/// A committed blob: immutable bytes addressed by (repository, digest).
pub struct BlobEntry {
    pub repo: Vec<u8>,
    pub digest: ContentDigest,
    pub bytes: Vec<u8>,
}

/// A stored manifest: raw bytes addressed by (repository, digest), together
/// with the digests it references.
pub struct ManifestEntry {
    pub repo: Vec<u8>,
    pub digest: ContentDigest,
    pub bytes: Vec<u8>,
    pub content_type: Vec<u8>,
    pub refs: Vec<ContentDigest>,
    pub index: bool,
}

/// A tag: an alias from (repository, tag name) to a manifest digest.
pub struct TagEntry {
    pub repo: Vec<u8>,
    pub tag: Vec<u8>,
    pub digest: ContentDigest,
}

/// One in-progress upload: scratch bytes and the running hash, with the
/// accepted offset.
pub struct UploadSession {
    pub id: Vec<u8>,
    pub repo: Vec<u8>,
    pub offset: usize,
    pub data: Vec<u8>,
    pub hasher: crypto::sha2::Sha256,
    pub last_activity: u64,
}

/// What a freshly opened upload session hands back: its id and offset zero.
pub struct UploadStart {
    pub uuid: Vec<u8>,
    pub offset: usize,
}

/// The registry core: content-addressed blobs, manifests, tags and upload
/// sessions, under one well-formedness invariant.
pub struct Registry {
    pub blobs: Vec<BlobEntry>,
    pub manifests: Vec<ManifestEntry>,
    pub tags: Vec<TagEntry>,
    pub sessions: Vec<UploadSession>,
}

impl Registry {
    /// Entry `i` of the blob store carries key (`repo`, `k`).
    pub open spec fn blob_match(self, i: int, repo: Seq<u8>, k: Seq<u8>) -> bool {
        self.blobs@[i].repo@ == repo && dkey(self.blobs@[i].digest) == k
    }

    /// A blob with that key is committed.
    pub open spec fn has_blob(self, repo: Seq<u8>, k: Seq<u8>) -> bool {
        exists|i: int| 0 <= i < self.blobs@.len() && #[trigger] self.blob_match(i, repo, k)
    }

    /// The committed blob with that key (meaningful when unique).
    pub open spec fn blob_entry(self, repo: Seq<u8>, k: Seq<u8>) -> BlobEntry {
        self.blobs@[choose|i: int|
            0 <= i < self.blobs@.len() && #[trigger] self.blob_match(i, repo, k)]
    }

    /// Entry `i` of the manifest store carries key (`repo`, `k`).
    pub open spec fn manifest_match(self, i: int, repo: Seq<u8>, k: Seq<u8>) -> bool {
        self.manifests@[i].repo@ == repo && dkey(self.manifests@[i].digest) == k
    }

    /// A manifest with that key is stored.
    pub open spec fn has_manifest(self, repo: Seq<u8>, k: Seq<u8>) -> bool {
        exists|i: int| 0 <= i < self.manifests@.len() && #[trigger] self.manifest_match(i, repo, k)
    }

    /// The stored manifest with that key (meaningful when unique).
    pub open spec fn manifest_entry(self, repo: Seq<u8>, k: Seq<u8>) -> ManifestEntry {
        self.manifests@[choose|i: int|
            0 <= i < self.manifests@.len() && #[trigger] self.manifest_match(i, repo, k)]
    }

    /// Entry `i` of the tag store carries key (`repo`, `tag`).
    pub open spec fn tag_match(self, i: int, repo: Seq<u8>, tag: Seq<u8>) -> bool {
        self.tags@[i].repo@ == repo && self.tags@[i].tag@ == tag
    }

    /// The tag is mapped in that repository.
    pub open spec fn has_tag(self, repo: Seq<u8>, tag: Seq<u8>) -> bool {
        exists|i: int| 0 <= i < self.tags@.len() && #[trigger] self.tag_match(i, repo, tag)
    }

    /// The digest a mapped tag aliases (meaningful when unique).
    pub open spec fn tag_digest(self, repo: Seq<u8>, tag: Seq<u8>) -> ContentDigest {
        self.tags@[choose|i: int|
            0 <= i < self.tags@.len() && #[trigger] self.tag_match(i, repo, tag)].digest
    }

    /// Entry `i` of the session table carries session id `id`.
    pub open spec fn session_match(self, i: int, id: Seq<u8>) -> bool {
        self.sessions@[i].id@ == id
    }

    /// A session with that id is open.
    pub open spec fn has_session(self, id: Seq<u8>) -> bool {
        exists|i: int| 0 <= i < self.sessions@.len() && #[trigger] self.session_match(i, id)
    }

    /// The open session with that id (meaningful when unique).
    pub open spec fn session_entry(self, id: Seq<u8>) -> UploadSession {
        self.sessions@[choose|i: int|
            0 <= i < self.sessions@.len() && #[trigger] self.session_match(i, id)]
    }

    /// One session is internally consistent: the accepted offset equals the
    /// scratch length equals the bytes fed to the running hash, and its
    /// repository name is valid.
    pub open spec fn session_wf(s: UploadSession) -> bool {
        &&& valid_repo_name(s.repo@)
        &&& s.offset == s.data@.len()
        &&& hasher_fed(s.hasher) == s.data@
        &&& hasher_live(s.hasher)
    }

    /// One committed blob is internally consistent: a valid repository name
    /// and the SHA-256 digest of its own bytes.
    pub open spec fn blob_entry_wf(e: BlobEntry) -> bool {
        &&& valid_repo_name(e.repo@)
        &&& valid_digest(e.digest)
        &&& e.digest.alg == Algorithm::Sha256
        &&& e.digest.hex@ == sha256_hex(e.bytes@)
    }

    /// One stored manifest is internally consistent: a valid repository
    /// name, the SHA-256 digest of its own raw bytes, and a recorded
    /// reference list that is exactly what its bytes parse to.
    pub open spec fn manifest_entry_wf(e: ManifestEntry) -> bool {
        &&& valid_repo_name(e.repo@)
        &&& valid_digest(e.digest)
        &&& e.digest.alg == Algorithm::Sha256
        &&& e.digest.hex@ == sha256_hex(e.bytes@)
        &&& match crate::manifest::spec_parse_manifest(e.bytes@) {
            Some(m) => {
                &&& e.index == m.is_index
                &&& e.refs@.len() == m.refs.len()
                &&& forall|j: int| 0 <= j < m.refs.len() ==> dkey(#[trigger] e.refs@[j]) == m.refs[j]
            },
            None => false,
        }
    }

    /// Every digest a manifest model references is admissible and present:
    /// in the manifest store for an index, in the blob store otherwise.
    pub open spec fn refs_present(self, repo: Seq<u8>, m: crate::manifest::ManifestModel) -> bool {
        forall|j: int|
            0 <= j < m.refs.len() ==> {
                &&& crate::digest::digest_parseable(#[trigger] m.refs[j])
                &&& (m.is_index ==> self.has_manifest(repo, m.refs[j]))
                &&& (!m.is_index ==> self.has_blob(repo, m.refs[j]))
            }
    }

    /// The blob store is keyed uniquely and every entry is consistent.
    pub open spec fn blobs_wf(self) -> bool {
        &&& forall|i: int, j: int|
            0 <= i < j < self.blobs@.len() ==> !(#[trigger] self.blob_match(
                j,
                self.blobs@[i].repo@,
                dkey(self.blobs@[i].digest),
            ))
        &&& forall|i: int|
            0 <= i < self.blobs@.len() ==> Self::blob_entry_wf(#[trigger] self.blobs@[i])
    }

    /// The manifest store is keyed uniquely, every entry is consistent, and
    /// every digest an entry references is present: in the blob store for an
    /// image manifest, in the manifest store for an index.
    pub open spec fn manifests_wf(self) -> bool {
        &&& forall|i: int, j: int|
            0 <= i < j < self.manifests@.len() ==> !(#[trigger] self.manifest_match(
                j,
                self.manifests@[i].repo@,
                dkey(self.manifests@[i].digest),
            ))
        &&& forall|i: int|
            0 <= i < self.manifests@.len() ==> Self::manifest_entry_wf(
                #[trigger] self.manifests@[i],
            )
        &&& forall|i: int, j: int|
            0 <= i < self.manifests@.len() && 0 <= j < self.manifests@[i].refs@.len() ==> {
                &&& valid_digest(#[trigger] self.manifests@[i].refs@[j])
                &&& !self.manifests@[i].index ==> self.has_blob(
                    self.manifests@[i].repo@,
                    dkey(self.manifests@[i].refs@[j]),
                )
                &&& self.manifests@[i].index ==> self.has_manifest(
                    self.manifests@[i].repo@,
                    dkey(self.manifests@[i].refs@[j]),
                )
            }
    }

    /// The tag store is keyed uniquely and every tag aliases a stored
    /// manifest of its repository.
    pub open spec fn tags_wf(self) -> bool {
        &&& forall|i: int, j: int|
            0 <= i < j < self.tags@.len() ==> !(#[trigger] self.tag_match(
                j,
                self.tags@[i].repo@,
                self.tags@[i].tag@,
            ))
        &&& forall|i: int|
            0 <= i < self.tags@.len() ==> {
                &&& valid_repo_name((#[trigger] self.tags@[i]).repo@)
                &&& valid_tag(self.tags@[i].tag@)
                &&& self.has_manifest(self.tags@[i].repo@, dkey(self.tags@[i].digest))
            }
    }

    /// The session table is keyed uniquely and every session accounts for
    /// its bytes exactly.
    pub open spec fn sessions_wf(self) -> bool {
        &&& forall|i: int, j: int|
            0 <= i < j < self.sessions@.len() ==> !(#[trigger] self.session_match(
                j,
                self.sessions@[i].id@,
            ))
        &&& forall|i: int|
            0 <= i < self.sessions@.len() ==> Self::session_wf(#[trigger] self.sessions@[i])
    }

    /// The registry invariant.
    ///
    /// Committed blobs carry the digest of their own bytes; manifests are
    /// digest-addressed by their bytes and reference only content that is
    /// present; tags alias stored manifests; sessions account for their
    /// bytes exactly; and every store is keyed uniquely.
    pub open spec fn wf(self) -> bool {
        &&& self.blobs_wf()
        &&& self.manifests_wf()
        &&& self.tags_wf()
        &&& self.sessions_wf()
    }

    /// Consistency of the content stores carries over to any registry whose
    /// blob, manifest and tag stores are the same.
    proof fn lemma_stores_transfer(self, pre: Registry)
        requires
            pre.blobs_wf(),
            pre.manifests_wf(),
            pre.tags_wf(),
            self.blobs@ == pre.blobs@,
            self.manifests@ == pre.manifests@,
            self.tags@ == pre.tags@,
        ensures
            self.blobs_wf(),
            self.manifests_wf(),
            self.tags_wf(),
    {
        assert forall|i: int, j: int| 0 <= i < j < self.blobs@.len() implies !(
        #[trigger] self.blob_match(j, self.blobs@[i].repo@, dkey(self.blobs@[i].digest))) by {
            assert(!pre.blob_match(j, pre.blobs@[i].repo@, dkey(pre.blobs@[i].digest)));
        }
        assert forall|i: int|
            0 <= i < self.blobs@.len() implies Self::blob_entry_wf(
            #[trigger] self.blobs@[i]) by {
            assert(Self::blob_entry_wf(pre.blobs@[i]));
        }
        assert forall|i: int, j: int| 0 <= i < j < self.manifests@.len() implies !(
        #[trigger] self.manifest_match(
            j,
            self.manifests@[i].repo@,
            dkey(self.manifests@[i].digest),
        )) by {
            assert(!pre.manifest_match(j, pre.manifests@[i].repo@, dkey(pre.manifests@[i].digest)));
        }
        assert forall|i: int|
            0 <= i < self.manifests@.len() implies Self::manifest_entry_wf(
            #[trigger] self.manifests@[i]) by {
            assert(Self::manifest_entry_wf(pre.manifests@[i]));
        }
        assert forall|i: int, j: int|
            0 <= i < self.manifests@.len() && 0 <= j
                < self.manifests@[i].refs@.len() implies {
            &&& valid_digest(#[trigger] self.manifests@[i].refs@[j])
            &&& !self.manifests@[i].index ==> self.has_blob(
                self.manifests@[i].repo@,
                dkey(self.manifests@[i].refs@[j]),
            )
            &&& self.manifests@[i].index ==> self.has_manifest(
                self.manifests@[i].repo@,
                dkey(self.manifests@[i].refs@[j]),
            )
        } by {
            assert(valid_digest(pre.manifests@[i].refs@[j]));
            let repo = pre.manifests@[i].repo@;
            let k = dkey(pre.manifests@[i].refs@[j]);
            if !pre.manifests@[i].index {
                assert(pre.has_blob(repo, k));
                let w = choose|w: int|
                    0 <= w < pre.blobs@.len() && #[trigger] pre.blob_match(w, repo, k);
                assert(self.blob_match(w, repo, k));
            } else {
                assert(pre.has_manifest(repo, k));
                let w = choose|w: int|
                    0 <= w < pre.manifests@.len() && #[trigger] pre.manifest_match(w, repo, k);
                assert(self.manifest_match(w, repo, k));
            }
        }
        assert forall|i: int, j: int| 0 <= i < j < self.tags@.len() implies !(
        #[trigger] self.tag_match(j, self.tags@[i].repo@, self.tags@[i].tag@)) by {
            assert(!pre.tag_match(j, pre.tags@[i].repo@, pre.tags@[i].tag@));
        }
        assert forall|i: int|
            0 <= i < self.tags@.len() implies {
            &&& valid_repo_name((#[trigger] self.tags@[i]).repo@)
            &&& valid_tag(self.tags@[i].tag@)
            &&& self.has_manifest(self.tags@[i].repo@, dkey(self.tags@[i].digest))
        } by {
            assert(valid_repo_name(pre.tags@[i].repo@));
            let repo = pre.tags@[i].repo@;
            let k = dkey(pre.tags@[i].digest);
            assert(pre.has_manifest(repo, k));
            let w = choose|w: int|
                0 <= w < pre.manifests@.len() && #[trigger] pre.manifest_match(w, repo, k);
            assert(self.manifest_match(w, repo, k));
        }
    }

    /// Session consistency carries over to any registry whose session table
    /// is the same.
    proof fn lemma_sessions_transfer(self, pre: Registry)
        requires
            pre.sessions_wf(),
            self.sessions@ == pre.sessions@,
        ensures
            self.sessions_wf(),
    {
        assert forall|i: int, j: int| 0 <= i < j < self.sessions@.len() implies !(
        #[trigger] self.session_match(j, self.sessions@[i].id@)) by {
            assert(!pre.session_match(j, pre.sessions@[i].id@));
        }
        assert forall|i: int|
            0 <= i < self.sessions@.len() implies Self::session_wf(
            #[trigger] self.sessions@[i]) by {
            assert(Self::session_wf(pre.sessions@[i]));
        }
    }

    /// An empty registry: no blobs, no manifests, no tags, no sessions.
    pub fn new() -> (r: Registry)
        ensures
            r.wf(),
            r.blobs@.len() == 0,
            r.manifests@.len() == 0,
            r.tags@.len() == 0,
            r.sessions@.len() == 0,
    {
        Registry { blobs: Vec::new(), manifests: Vec::new(), tags: Vec::new(), sessions: Vec::new() }
    }

    /// Finds the position of a committed blob.
    fn find_blob(&self, repo: &[u8], key: &[u8]) -> (r: Option<usize>)
        ensures
            match r {
                Some(i) => 0 <= i < self.blobs@.len() && self.blob_match(i as int, repo@, key@),
                None => !self.has_blob(repo@, key@),
            },
    {
        let n = self.blobs.len();
        let mut i: usize = 0;
        while i < n
            invariant
                n == self.blobs@.len(),
                i <= n,
                forall|j: int| 0 <= j < i ==> !(#[trigger] self.blob_match(j, repo@, key@)),
            decreases n - i,
        {
            let e = &self.blobs[i];
            let ck = crate::digest::format_digest(&e.digest);
            if bytes_eq(e.repo.as_slice(), repo) && bytes_eq(ck.as_slice(), key) {
                return Some(i);
            }
            i = i + 1;
        }
        None
    }

    /// Finds the position of a stored manifest.
    fn find_manifest(&self, repo: &[u8], key: &[u8]) -> (r: Option<usize>)
        ensures
            match r {
                Some(i) => 0 <= i < self.manifests@.len() && self.manifest_match(
                    i as int,
                    repo@,
                    key@,
                ),
                None => !self.has_manifest(repo@, key@),
            },
    {
        let n = self.manifests.len();
        let mut i: usize = 0;
        while i < n
            invariant
                n == self.manifests@.len(),
                i <= n,
                forall|j: int| 0 <= j < i ==> !(#[trigger] self.manifest_match(j, repo@, key@)),
            decreases n - i,
        {
            let e = &self.manifests[i];
            let ck = crate::digest::format_digest(&e.digest);
            if bytes_eq(e.repo.as_slice(), repo) && bytes_eq(ck.as_slice(), key) {
                return Some(i);
            }
            i = i + 1;
        }
        None
    }

    /// Finds the position of a tag mapping.
    fn find_tag(&self, repo: &[u8], tag: &[u8]) -> (r: Option<usize>)
        ensures
            match r {
                Some(i) => 0 <= i < self.tags@.len() && self.tag_match(i as int, repo@, tag@),
                None => !self.has_tag(repo@, tag@),
            },
    {
        let n = self.tags.len();
        let mut i: usize = 0;
        while i < n
            invariant
                n == self.tags@.len(),
                i <= n,
                forall|j: int| 0 <= j < i ==> !(#[trigger] self.tag_match(j, repo@, tag@)),
            decreases n - i,
        {
            let e = &self.tags[i];
            if bytes_eq(e.repo.as_slice(), repo) && bytes_eq(e.tag.as_slice(), tag) {
                return Some(i);
            }
            i = i + 1;
        }
        None
    }

    /// Finds the position of an open session.
    fn find_session(&self, id: &[u8]) -> (r: Option<usize>)
        ensures
            match r {
                Some(i) => 0 <= i < self.sessions@.len() && self.session_match(i as int, id@),
                None => !self.has_session(id@),
            },
    {
        let n = self.sessions.len();
        let mut i: usize = 0;
        while i < n
            invariant
                n == self.sessions@.len(),
                i <= n,
                forall|j: int| 0 <= j < i ==> !(#[trigger] self.session_match(j, id@)),
            decreases n - i,
        {
            if bytes_eq(self.sessions[i].id.as_slice(), id) {
                return Some(i);
            }
            i = i + 1;
        }
        None
    }

    /// Opens a fresh upload session in a repository.
    ///
    /// Allocates a session id no open session carries, an empty scratch and a
    /// fresh hash, and registers the session at offset zero.
    pub fn begin_upload(&mut self, repo: &[u8], now: u64) -> (r: Result<UploadStart, ErrorKind>)
        requires
            old(self).wf(),
        ensures
            final (self).wf(),
            match r {
                Ok(u) => {
                    &&& valid_repo_name(repo@)
                    &&& u.offset == 0
                    &&& !old(self).has_session(u.uuid@)
                    &&& final (self).has_session(u.uuid@)
                    &&& final (self).sessions@.len() == old(self).sessions@.len() + 1
                    &&& forall|k: int|
                        0 <= k < old(self).sessions@.len() ==> (#[trigger] final (self).sessions@[k])
                            == old(self).sessions@[k]
                    &&& final (self).sessions@.last().id@ == u.uuid@
                    &&& final (self).sessions@.last().repo@ == repo@
                    &&& final (self).sessions@.last().offset == 0
                    &&& final (self).sessions@.last().data@ == Seq::<u8>::empty()
                    &&& final (self).sessions@.last().last_activity == now
                    &&& final (self).blobs@ == old(self).blobs@
                    &&& final (self).manifests@ == old(self).manifests@
                    &&& final (self).tags@ == old(self).tags@
                },
                Err(e) => {
                    &&& *final (self) == *old(self)
                    &&& (e == ErrorKind::NameInvalid <==> !valid_repo_name(repo@))
                    &&& (e == ErrorKind::Internal ==> old(self).sessions@.len() > 0)
                    &&& (e == ErrorKind::NameInvalid || e == ErrorKind::Internal)
                },
            },
            valid_repo_name(repo@) && old(self).sessions@.len() == 0 ==> r is Ok,
    {
        if !check_repo_name(repo) {
            return Err(ErrorKind::NameInvalid);
        }
        let mut tries: usize = 0;
        while tries < 16
            invariant
                self.wf(),
                *self == *old(self),
                valid_repo_name(repo@),
                tries > 0 ==> old(self).sessions@.len() > 0,
            decreases 16 - tries,
        {
            let id = crate::ident::fresh_uuid();
            if self.find_session(id.as_slice()).is_none() {
                let session = UploadSession {
                    id: copy_bytes(id.as_slice()),
                    repo: copy_bytes(repo),
                    offset: 0,
                    data: Vec::new(),
                    hasher: hasher_new(),
                    last_activity: now,
                };
                proof {
                    assert(hasher_fed(session.hasher) =~= session.data@);
                    assert(Self::session_wf(session));
                }
                self.sessions.push(session);
                proof {
                    self.lemma_stores_transfer(*old(self));
                    let n = self.sessions@.len();
                    assert forall|i: int, j: int| 0 <= i < j < n implies !(
                    #[trigger] self.session_match(j, self.sessions@[i].id@)) by {
                        if j == n - 1 {
                            assert(!old(self).session_match(i, id@));
                        } else {
                            assert(!old(self).session_match(j, old(self).sessions@[i].id@));
                        }
                    }
                    assert forall|i: int|
                        0 <= i < n implies Self::session_wf(#[trigger] self.sessions@[i]) by {
                        if i < n - 1 {
                            assert(Self::session_wf(old(self).sessions@[i]));
                        }
                    }
                    assert(self.session_match(n - 1, id@));
                }
                return Ok(UploadStart { uuid: id, offset: 0 });
            }
            tries = tries + 1;
        }
        Err(ErrorKind::Internal)
    }

    /// Reports the accepted offset and repository of an open session.
    pub fn upload_status(&self, id: &[u8]) -> (r: Result<(usize, Vec<u8>), ErrorKind>)
        requires
            self.wf(),
        ensures
            match r {
                Ok((off, repo)) => {
                    &&& self.has_session(id@)
                    &&& off == self.session_entry(id@).offset
                    &&& repo@ == self.session_entry(id@).repo@
                },
                Err(e) => e == ErrorKind::UploadUnknown && !self.has_session(id@),
            },
    {
        match self.find_session(id) {
            None => Err(ErrorKind::UploadUnknown),
            Some(i) => {
                proof {
                    self.lemma_session_unique(i as int, id@);
                }
                let s = &self.sessions[i];
                Ok((s.offset, copy_bytes(s.repo.as_slice())))
            },
        }
    }

    /// Ends a session without committing anything and frees its scratch.
    ///
    /// Idempotent: aborting an unknown id changes nothing.
    pub fn abort_upload(&mut self, id: &[u8])
        requires
            old(self).wf(),
        ensures
            final (self).wf(),
            !final (self).has_session(id@),
            final (self).blobs@ == old(self).blobs@,
            final (self).manifests@ == old(self).manifests@,
            final (self).tags@ == old(self).tags@,
            !old(self).has_session(id@) ==> *final (self) == *old(self),
            old(self).has_session(id@) ==> final (self).sessions@.len() == old(
                self,
            ).sessions@.len() - 1,
            forall|s: Seq<u8>|
                s != id@ ==> (#[trigger] final (self).has_session(s) == old(self).has_session(s)),
            forall|s: Seq<u8>|
                s != id@ && old(self).has_session(s) ==> #[trigger] final (self).session_entry(s)
                    == old(self).session_entry(s),
    {
        match self.find_session(id) {
            None => {},
            Some(i) => {
                proof {
                    self.lemma_session_unique(i as int, id@);
                }
                let _ = self.sessions.remove(i);
                proof {
                    self.lemma_sessions_remove(*old(self), i as int, id@);
                    self.lemma_stores_transfer(*old(self));
                }
            },
        }
    }

    /// After removing the session at `i`, the table is well-formed again, the
    /// removed id is gone, and every other session is untouched.
    proof fn lemma_sessions_remove(self, pre: Registry, i: int, id: Seq<u8>)
        requires
            pre.sessions_wf(),
            0 <= i < pre.sessions@.len(),
            pre.session_match(i, id),
            self.sessions@ == pre.sessions@.remove(i),
        ensures
            self.sessions_wf(),
            !self.has_session(id),
            forall|s: Seq<u8>| s != id ==> (#[trigger] self.has_session(s) == pre.has_session(s)),
            forall|s: Seq<u8>|
                s != id && pre.has_session(s) ==> #[trigger] self.session_entry(s)
                    == pre.session_entry(s),
    {
        assert(forall|k: int|
            0 <= k < self.sessions@.len() ==> #[trigger] self.sessions@[k] == (if k < i {
                pre.sessions@[k]
            } else {
                pre.sessions@[k + 1]
            }));
        assert forall|a: int, b: int| 0 <= a < b < self.sessions@.len() implies !(
        #[trigger] self.session_match(b, self.sessions@[a].id@)) by {
            let pa = if a < i { a } else { a + 1 };
            let pb = if b < i { b } else { b + 1 };
            assert(pa < pb);
            assert(!pre.session_match(pb, pre.sessions@[pa].id@));
        }
        assert forall|k: int|
            0 <= k < self.sessions@.len() implies Self::session_wf(
            #[trigger] self.sessions@[k]) by {
            let pk = if k < i { k } else { k + 1 };
            assert(Self::session_wf(pre.sessions@[pk]));
        }
        assert(self.sessions_wf());
        if self.has_session(id) {
            let k = choose|k: int|
                0 <= k < self.sessions@.len() && #[trigger] self.session_match(k, id);
            let pk = if k < i { k } else { k + 1 };
            assert(pre.session_match(pk, id));
            if pk < i {
                assert(!pre.session_match(i, pre.sessions@[pk].id@));
            } else {
                assert(!pre.session_match(pk, pre.sessions@[i].id@));
            }
            assert(false);
        }
        assert forall|s: Seq<u8>| s != id implies (#[trigger] self.has_session(s)
            == pre.has_session(s)) by {
            if self.has_session(s) {
                let k = choose|k: int|
                    0 <= k < self.sessions@.len() && #[trigger] self.session_match(k, s);
                let pk = if k < i { k } else { k + 1 };
                assert(pre.session_match(pk, s));
            }
            if pre.has_session(s) {
                let k = choose|k: int|
                    0 <= k < pre.sessions@.len() && #[trigger] pre.session_match(k, s);
                assert(k != i);
                let nk = if k < i { k } else { k - 1 };
                assert(self.session_match(nk, s));
            }
        }
        assert forall|s: Seq<u8>| s != id && pre.has_session(s) implies #[trigger] self
            .session_entry(s) == pre.session_entry(s) by {
            let k = choose|k: int|
                0 <= k < pre.sessions@.len() && #[trigger] pre.session_match(k, s);
            assert(k != i);
            let nk = if k < i { k } else { k - 1 };
            assert(self.session_match(nk, s));
            self.lemma_session_unique(nk, s);
            pre.lemma_session_unique(k, s);
        }
    }

    /// Appends a chunk to an open session, advancing its offset and hash.
    ///
    /// When a start offset is supplied it must equal the session's accepted
    /// offset: out-of-order chunks are rejected with `UploadConflict`, and a
    /// rejected patch leaves the registry exactly as it was.
    pub fn patch_upload(
        &mut self,
        id: &[u8],
        chunk: &[u8],
        range_start: Option<usize>,
        now: u64,
    ) -> (r: Result<usize, ErrorKind>)
        requires
            old(self).wf(),
        ensures
            final (self).wf(),
            match r {
                Ok(off) => {
                    &&& old(self).has_session(id@)
                    &&& (match range_start {
                        Some(rs) => rs == old(self).session_entry(id@).offset,
                        None => true,
                    })
                    &&& off == old(self).session_entry(id@).data@.len() + chunk@.len()
                    &&& final (self).sessions@.len() == old(self).sessions@.len()
                    &&& forall|k: int|
                        0 <= k < old(self).sessions@.len() ==> (#[trigger] final (self).sessions@[k]).id@
                            == old(self).sessions@[k].id@
                    &&& forall|k: int|
                        0 <= k < old(self).sessions@.len() && old(self).sessions@[k].id@ != id@
                            ==> (#[trigger] final (self).sessions@[k]) == old(self).sessions@[k]
                    &&& final (self).has_session(id@)
                    &&& final (self).session_entry(id@).repo@ == old(self).session_entry(id@).repo@
                    &&& final (self).session_entry(id@).data@ == old(self).session_entry(id@).data@
                        + chunk@
                    &&& final (self).session_entry(id@).offset == off
                    &&& final (self).session_entry(id@).last_activity == now
                    &&& final (self).blobs@ == old(self).blobs@
                    &&& final (self).manifests@ == old(self).manifests@
                    &&& final (self).tags@ == old(self).tags@
                },
                Err(e) => {
                    &&& *final (self) == *old(self)
                    &&& (e == ErrorKind::UploadUnknown <==> !old(self).has_session(id@))
                    &&& (e == ErrorKind::UploadConflict ==> old(self).has_session(id@) && (
                    match range_start {
                        Some(rs) => rs != old(self).session_entry(id@).offset,
                        None => false,
                    }))
                    &&& (e == ErrorKind::UploadUnknown || e == ErrorKind::UploadConflict)
                },
            },
    {
        let idx = match self.find_session(id) {
            None => {
                return Err(ErrorKind::UploadUnknown);
            },
            Some(i) => i,
        };
        proof {
            self.lemma_session_unique(idx as int, id@);
        }
        let cur_off = self.sessions[idx].offset;
        match range_start {
            Some(rs) => {
                if rs != cur_off {
                    return Err(ErrorKind::UploadConflict);
                }
            },
            None => {},
        }
        let mut s = self.sessions.remove(idx);
        push_bytes(&mut s.data, chunk);
        hasher_update(&mut s.hasher, chunk);
        let new_off = s.data.len();
        s.offset = new_off;
        s.last_activity = now;
        self.sessions.insert(idx, s);
        proof {
            let pre = *old(self);
            let i = idx as int;
            let su = self.sessions@[i];
            assert(self.sessions@ =~= pre.sessions@.update(i, su));
            self.lemma_stores_transfer(pre);
            assert(Self::session_wf(pre.sessions@[i]));
            assert(su.id@ == id@);
            assert(hasher_fed(su.hasher) =~= su.data@);
            assert(Self::session_wf(su));
            assert forall|a: int, b: int| 0 <= a < b < self.sessions@.len() implies !(
            #[trigger] self.session_match(b, self.sessions@[a].id@)) by {
                assert(!pre.session_match(b, pre.sessions@[a].id@));
            }
            assert forall|k: int|
                0 <= k < self.sessions@.len() implies Self::session_wf(
                #[trigger] self.sessions@[k]) by {
                if k != i {
                    assert(Self::session_wf(pre.sessions@[k]));
                }
            }
            assert(self.session_match(i, id@));
            self.lemma_session_unique(i, id@);
        }
        Ok(new_off)
    }

    /// Finalizes an upload: verifies the claimed digest against the bytes
    /// received and commits them as a blob.
    ///
    /// A trailing chunk, when supplied, counts as one final patch. The
    /// session ends either way: on a digest match the bytes are committed
    /// (idempotently if the blob already exists), on a mismatch nothing is
    /// committed and the scratch is discarded.
    pub fn complete_upload(&mut self, id: &[u8], claimed: &ContentDigest, trailing: Option<&[u8]>)
        -> (r: Result<ContentDigest, ErrorKind>)
        requires
            old(self).wf(),
        ensures
            final (self).wf(),
            final (self).manifests@ == old(self).manifests@,
            final (self).tags@ == old(self).tags@,
            forall|s: Seq<u8>|
                s != id@ ==> (#[trigger] final (self).has_session(s)) == old(self).has_session(s),
            forall|s: Seq<u8>|
                s != id@ && old(self).has_session(s) ==> (#[trigger] final (self).session_entry(
                    s,
                )) == old(self).session_entry(s),
            match r {
                Ok(d) => {
                    &&& old(self).has_session(id@)
                    &&& !final (self).has_session(id@)
                    &&& d.alg == Algorithm::Sha256
                    &&& d.hex@ == sha256_hex(
                        old(self).session_entry(id@).data@ + (match trailing {
                            Some(t) => t@,
                            None => Seq::<u8>::empty(),
                        }),
                    )
                    &&& claimed.alg == d.alg && claimed.hex@ == d.hex@
                    &&& valid_digest(d)
                    &&& final (self).has_blob(old(self).session_entry(id@).repo@, dkey(d))
                    &&& (!old(self).has_blob(old(self).session_entry(id@).repo@, dkey(d)) ==> {
                        &&& final (self).blobs@.len() == old(self).blobs@.len() + 1
                        &&& final (self).blob_entry(
                            old(self).session_entry(id@).repo@,
                            dkey(d),
                        ).bytes@ == old(self).session_entry(id@).data@ + (match trailing {
                            Some(t) => t@,
                            None => Seq::<u8>::empty(),
                        })
                    })
                    &&& (old(self).has_blob(old(self).session_entry(id@).repo@, dkey(d))
                        ==> final (self).blobs@ == old(self).blobs@)
                    &&& forall|repo: Seq<u8>, k: Seq<u8>|
                        old(self).has_blob(repo, k) ==> #[trigger] final (self).has_blob(repo, k)
                    &&& forall|repo: Seq<u8>, k: Seq<u8>|
                        old(self).has_blob(repo, k) ==> #[trigger] final (self).blob_entry(repo, k)
                            == old(self).blob_entry(repo, k)
                },
                Err(e) => {
                    &&& (e == ErrorKind::UploadUnknown <==> !old(self).has_session(id@))
                    &&& (e == ErrorKind::UploadUnknown ==> *final (self) == *old(self))
                    &&& (e == ErrorKind::DigestInvalid ==> {
                        &&& old(self).has_session(id@)
                        &&& !(claimed.alg == Algorithm::Sha256 && claimed.hex@ == sha256_hex(
                            old(self).session_entry(id@).data@ + (match trailing {
                                Some(t) => t@,
                                None => Seq::<u8>::empty(),
                            }),
                        ))
                        &&& final (self).blobs@ == old(self).blobs@
                        &&& !final (self).has_session(id@)
                    })
                    &&& (e == ErrorKind::UploadUnknown || e == ErrorKind::DigestInvalid)
                },
            },
    {
        let idx = match self.find_session(id) {
            None => {
                return Err(ErrorKind::UploadUnknown);
            },
            Some(i) => i,
        };
        proof {
            self.lemma_session_unique(idx as int, id@);
            assert(Self::session_wf(old(self).sessions@[idx as int]));
        }
        let mut s = self.sessions.remove(idx);
        match trailing {
            Some(t) => {
                push_bytes(&mut s.data, t);
                hasher_update(&mut s.hasher, t);
            },
            None => {},
        }
        proof {
            assert(hasher_fed(s.hasher) =~= s.data@);
        }
        let hex = hasher_finish(&mut s.hasher);
        let actual = ContentDigest { alg: Algorithm::Sha256, hex };
        if !digest_eq(claimed, &actual) {
            proof {
                self.lemma_sessions_remove(*old(self), idx as int, id@);
                self.lemma_stores_transfer(*old(self));
            }
            return Err(ErrorKind::DigestInvalid);
        }
        let key = crate::digest::format_digest(&actual);
        let committed = ContentDigest {
            alg: Algorithm::Sha256,
            hex: copy_bytes(actual.hex.as_slice()),
        };
        match self.find_blob(s.repo.as_slice(), key.as_slice()) {
            Some(b) => {
                proof {
                    let pre = *old(self);
                    self.lemma_sessions_remove(pre, idx as int, id@);
                    self.lemma_stores_transfer(pre);
                    assert(self.blob_match(b as int, s.repo@, dkey(actual)));
                    assert(pre.blob_match(b as int, s.repo@, dkey(actual)));
                    self.lemma_blob_unique(b as int, s.repo@, dkey(actual));
                    assert forall|repo: Seq<u8>, k: Seq<u8>|
                        pre.has_blob(repo, k) implies #[trigger] self.has_blob(repo, k) by {
                        let w = choose|w: int|
                            0 <= w < pre.blobs@.len() && #[trigger] pre.blob_match(w, repo, k);
                        assert(self.blob_match(w, repo, k));
                    }
                    assert forall|repo: Seq<u8>, k: Seq<u8>|
                        pre.has_blob(repo, k) implies #[trigger] self.blob_entry(repo, k)
                            == pre.blob_entry(repo, k) by {
                        let w = choose|w: int|
                            0 <= w < pre.blobs@.len() && #[trigger] pre.blob_match(w, repo, k);
                        assert(self.blob_match(w, repo, k));
                        self.lemma_blob_unique(w, repo, k);
                        pre.lemma_blob_unique(w, repo, k);
                    }
                }
                Ok(actual)
            },
            None => {
                let entry = BlobEntry { repo: s.repo, digest: committed, bytes: s.data };
                proof {
                    let pre = *old(self);
                    assert(dkey(entry.digest) =~= dkey(actual));
                    assert(Self::blob_entry_wf(entry));
                    if pre.has_blob(entry.repo@, dkey(entry.digest)) {
                        let w = choose|w: int|
                            0 <= w < pre.blobs@.len() && #[trigger] pre.blob_match(
                                w,
                                entry.repo@,
                                dkey(entry.digest),
                            );
                        assert(self.blob_match(w, entry.repo@, dkey(entry.digest)));
                        assert(false);
                    }
                }
                self.blobs.push(entry);
                proof {
                    let pre = *old(self);
                    self.lemma_sessions_remove(pre, idx as int, id@);
                    self.lemma_blobs_push(pre, self.blobs@.last());
                    let n = self.blobs@.len();
                    assert(self.blob_match(n - 1, self.blobs@[n - 1].repo@, dkey(actual)));
                    self.lemma_blob_unique(n - 1, self.blobs@[n - 1].repo@, dkey(actual));
                }
                Ok(actual)
            },
        }
    }

    /// Pushing one fresh, consistent blob keeps the stores well-formed and
    /// every existing blob reachable and unchanged.
    proof fn lemma_blobs_push(self, pre: Registry, e: BlobEntry)
        requires
            pre.blobs_wf(),
            pre.manifests_wf(),
            pre.tags_wf(),
            self.blobs@ == pre.blobs@.push(e),
            self.manifests@ == pre.manifests@,
            self.tags@ == pre.tags@,
            Self::blob_entry_wf(e),
            !pre.has_blob(e.repo@, dkey(e.digest)),
        ensures
            self.blobs_wf(),
            self.manifests_wf(),
            self.tags_wf(),
            self.has_blob(e.repo@, dkey(e.digest)),
            forall|repo: Seq<u8>, k: Seq<u8>|
                pre.has_blob(repo, k) ==> #[trigger] self.has_blob(repo, k),
            forall|repo: Seq<u8>, k: Seq<u8>|
                pre.has_blob(repo, k) ==> #[trigger] self.blob_entry(repo, k) == pre.blob_entry(
                    repo,
                    k,
                ),
    {
        let n = self.blobs@.len();
        assert forall|i: int, j: int| 0 <= i < j < n implies !(#[trigger] self.blob_match(
            j,
            self.blobs@[i].repo@,
            dkey(self.blobs@[i].digest),
        )) by {
            if j == n - 1 {
                if self.blob_match(j, self.blobs@[i].repo@, dkey(self.blobs@[i].digest)) {
                    assert(pre.blob_match(i, e.repo@, dkey(e.digest)));
                }
            } else {
                assert(!pre.blob_match(j, pre.blobs@[i].repo@, dkey(pre.blobs@[i].digest)));
            }
        }
        assert forall|i: int| 0 <= i < n implies Self::blob_entry_wf(#[trigger] self.blobs@[i]) by {
            if i < n - 1 {
                assert(Self::blob_entry_wf(pre.blobs@[i]));
            }
        }
        assert forall|repo: Seq<u8>, k: Seq<u8>|
            pre.has_blob(repo, k) implies #[trigger] self.has_blob(repo, k) by {
            let w = choose|w: int| 0 <= w < pre.blobs@.len() && #[trigger] pre.blob_match(w, repo, k);
            assert(self.blob_match(w, repo, k));
        }
        assert forall|repo: Seq<u8>, k: Seq<u8>|
            pre.has_blob(repo, k) implies #[trigger] self.blob_entry(repo, k) == pre.blob_entry(
                repo,
                k,
            ) by {
            let w = choose|w: int| 0 <= w < pre.blobs@.len() && #[trigger] pre.blob_match(w, repo, k);
            assert(self.blob_match(w, repo, k));
            self.lemma_blob_unique(w, repo, k);
            pre.lemma_blob_unique(w, repo, k);
        }
        assert forall|i: int, j: int| 0 <= i < j < self.manifests@.len() implies !(
        #[trigger] self.manifest_match(
            j,
            self.manifests@[i].repo@,
            dkey(self.manifests@[i].digest),
        )) by {
            assert(!pre.manifest_match(j, pre.manifests@[i].repo@, dkey(pre.manifests@[i].digest)));
        }
        assert forall|i: int|
            0 <= i < self.manifests@.len() implies Self::manifest_entry_wf(
            #[trigger] self.manifests@[i]) by {
            assert(Self::manifest_entry_wf(pre.manifests@[i]));
        }
        assert forall|i: int, j: int|
            0 <= i < self.manifests@.len() && 0 <= j
                < self.manifests@[i].refs@.len() implies {
            &&& valid_digest(#[trigger] self.manifests@[i].refs@[j])
            &&& !self.manifests@[i].index ==> self.has_blob(
                self.manifests@[i].repo@,
                dkey(self.manifests@[i].refs@[j]),
            )
            &&& self.manifests@[i].index ==> self.has_manifest(
                self.manifests@[i].repo@,
                dkey(self.manifests@[i].refs@[j]),
            )
        } by {
            assert(valid_digest(pre.manifests@[i].refs@[j]));
            let repo = pre.manifests@[i].repo@;
            let k = dkey(pre.manifests@[i].refs@[j]);
            if !pre.manifests@[i].index {
                assert(pre.has_blob(repo, k));
                let w = choose|w: int|
                    0 <= w < pre.blobs@.len() && #[trigger] pre.blob_match(w, repo, k);
                assert(self.blob_match(w, repo, k));
            } else {
                assert(pre.has_manifest(repo, k));
                let w = choose|w: int|
                    0 <= w < pre.manifests@.len() && #[trigger] pre.manifest_match(w, repo, k);
                assert(self.manifest_match(w, repo, k));
            }
        }
        assert forall|i: int, j: int| 0 <= i < j < self.tags@.len() implies !(
        #[trigger] self.tag_match(j, self.tags@[i].repo@, self.tags@[i].tag@)) by {
            assert(!pre.tag_match(j, pre.tags@[i].repo@, pre.tags@[i].tag@));
        }
        assert forall|i: int|
            0 <= i < self.tags@.len() implies {
            &&& valid_repo_name((#[trigger] self.tags@[i]).repo@)
            &&& valid_tag(self.tags@[i].tag@)
            &&& self.has_manifest(self.tags@[i].repo@, dkey(self.tags@[i].digest))
        } by {
            assert(valid_repo_name(pre.tags@[i].repo@));
            let repo = pre.tags@[i].repo@;
            let k = dkey(pre.tags@[i].digest);
            assert(pre.has_manifest(repo, k));
            let w = choose|w: int|
                0 <= w < pre.manifests@.len() && #[trigger] pre.manifest_match(w, repo, k);
            assert(self.manifest_match(w, repo, k));
        }
        assert(self.blob_match(n - 1, e.repo@, dkey(e.digest)));
    }

    /// Pushing one fresh, consistent manifest whose references are present
    /// keeps the stores well-formed and every existing manifest reachable
    /// and unchanged.
    proof fn lemma_manifests_push(self, pre: Registry, e: ManifestEntry)
        requires
            pre.blobs_wf(),
            pre.manifests_wf(),
            pre.tags_wf(),
            self.blobs@ == pre.blobs@,
            self.manifests@ == pre.manifests@.push(e),
            self.tags@ == pre.tags@,
            Self::manifest_entry_wf(e),
            !pre.has_manifest(e.repo@, dkey(e.digest)),
            forall|j: int|
                0 <= j < e.refs@.len() ==> {
                    &&& valid_digest(#[trigger] e.refs@[j])
                    &&& (!e.index ==> pre.has_blob(e.repo@, dkey(e.refs@[j])))
                    &&& (e.index ==> pre.has_manifest(e.repo@, dkey(e.refs@[j])))
                },
        ensures
            self.blobs_wf(),
            self.manifests_wf(),
            self.tags_wf(),
            self.has_manifest(e.repo@, dkey(e.digest)),
            forall|repo: Seq<u8>, k: Seq<u8>|
                pre.has_manifest(repo, k) ==> #[trigger] self.has_manifest(repo, k),
            forall|repo: Seq<u8>, k: Seq<u8>|
                pre.has_manifest(repo, k) ==> #[trigger] self.manifest_entry(repo, k)
                    == pre.manifest_entry(repo, k),
            forall|repo: Seq<u8>, k: Seq<u8>|
                pre.has_blob(repo, k) == #[trigger] self.has_blob(repo, k),
            self.manifest_entry(e.repo@, dkey(e.digest)) == e,
    {
        let n = self.manifests@.len();
        assert forall|repo: Seq<u8>, k: Seq<u8>|
            pre.has_blob(repo, k) == #[trigger] self.has_blob(repo, k) by {
            if pre.has_blob(repo, k) {
                let w = choose|w: int|
                    0 <= w < pre.blobs@.len() && #[trigger] pre.blob_match(w, repo, k);
                assert(self.blob_match(w, repo, k));
            }
            if self.has_blob(repo, k) {
                let w = choose|w: int|
                    0 <= w < self.blobs@.len() && #[trigger] self.blob_match(w, repo, k);
                assert(pre.blob_match(w, repo, k));
            }
        }
        assert forall|i: int, j: int| 0 <= i < j < self.blobs@.len() implies !(
        #[trigger] self.blob_match(j, self.blobs@[i].repo@, dkey(self.blobs@[i].digest))) by {
            assert(!pre.blob_match(j, pre.blobs@[i].repo@, dkey(pre.blobs@[i].digest)));
        }
        assert forall|i: int|
            0 <= i < self.blobs@.len() implies Self::blob_entry_wf(#[trigger] self.blobs@[i]) by {
            assert(Self::blob_entry_wf(pre.blobs@[i]));
        }
        assert forall|i: int, j: int| 0 <= i < j < n implies !(#[trigger] self.manifest_match(
            j,
            self.manifests@[i].repo@,
            dkey(self.manifests@[i].digest),
        )) by {
            if j == n - 1 {
                if self.manifest_match(j, self.manifests@[i].repo@, dkey(self.manifests@[i].digest))
                     {
                    assert(pre.manifest_match(i, e.repo@, dkey(e.digest)));
                }
            } else {
                assert(!pre.manifest_match(
                    j,
                    pre.manifests@[i].repo@,
                    dkey(pre.manifests@[i].digest),
                ));
            }
        }
        assert forall|i: int|
            0 <= i < n implies Self::manifest_entry_wf(#[trigger] self.manifests@[i]) by {
            if i < n - 1 {
                assert(Self::manifest_entry_wf(pre.manifests@[i]));
            }
        }
        assert forall|repo: Seq<u8>, k: Seq<u8>|
            pre.has_manifest(repo, k) implies #[trigger] self.has_manifest(repo, k) by {
            let w = choose|w: int|
                0 <= w < pre.manifests@.len() && #[trigger] pre.manifest_match(w, repo, k);
            assert(self.manifest_match(w, repo, k));
        }
        assert(self.manifest_match(n - 1, e.repo@, dkey(e.digest)));
        assert forall|i: int, j: int|
            0 <= i < n && 0 <= j < self.manifests@[i].refs@.len() implies {
            &&& valid_digest(#[trigger] self.manifests@[i].refs@[j])
            &&& !self.manifests@[i].index ==> self.has_blob(
                self.manifests@[i].repo@,
                dkey(self.manifests@[i].refs@[j]),
            )
            &&& self.manifests@[i].index ==> self.has_manifest(
                self.manifests@[i].repo@,
                dkey(self.manifests@[i].refs@[j]),
            )
        } by {
            if i < n - 1 {
                assert(valid_digest(pre.manifests@[i].refs@[j]));
                let repo = pre.manifests@[i].repo@;
                let k = dkey(pre.manifests@[i].refs@[j]);
                if !pre.manifests@[i].index {
                    assert(pre.has_blob(repo, k));
                    let w = choose|w: int|
                        0 <= w < pre.blobs@.len() && #[trigger] pre.blob_match(w, repo, k);
                    assert(self.blob_match(w, repo, k));
                } else {
                    assert(pre.has_manifest(repo, k));
                    let w = choose|w: int|
                        0 <= w < pre.manifests@.len() && #[trigger] pre.manifest_match(w, repo, k);
                    assert(self.manifest_match(w, repo, k));
                }
            } else {
                let repo = e.repo@;
                let k = dkey(e.refs@[j]);
                if !e.index {
                    assert(pre.has_blob(repo, k));
                    let w = choose|w: int|
                        0 <= w < pre.blobs@.len() && #[trigger] pre.blob_match(w, repo, k);
                    assert(self.blob_match(w, repo, k));
                } else {
                    assert(pre.has_manifest(repo, k));
                    let w = choose|w: int|
                        0 <= w < pre.manifests@.len() && #[trigger] pre.manifest_match(w, repo, k);
                    assert(self.manifest_match(w, repo, k));
                }
            }
        }
        assert forall|i: int, j: int| 0 <= i < j < self.tags@.len() implies !(
        #[trigger] self.tag_match(j, self.tags@[i].repo@, self.tags@[i].tag@)) by {
            assert(!pre.tag_match(j, pre.tags@[i].repo@, pre.tags@[i].tag@));
        }
        assert forall|i: int|
            0 <= i < self.tags@.len() implies {
            &&& valid_repo_name((#[trigger] self.tags@[i]).repo@)
            &&& valid_tag(self.tags@[i].tag@)
            &&& self.has_manifest(self.tags@[i].repo@, dkey(self.tags@[i].digest))
        } by {
            assert(valid_repo_name(pre.tags@[i].repo@));
            let repo = pre.tags@[i].repo@;
            let k = dkey(pre.tags@[i].digest);
            assert(pre.has_manifest(repo, k));
            let w = choose|w: int|
                0 <= w < pre.manifests@.len() && #[trigger] pre.manifest_match(w, repo, k);
            assert(self.manifest_match(w, repo, k));
        }
        assert forall|repo: Seq<u8>, k: Seq<u8>|
            pre.has_manifest(repo, k) implies #[trigger] self.manifest_entry(repo, k)
                == pre.manifest_entry(repo, k) by {
            let w = choose|w: int|
                0 <= w < pre.manifests@.len() && #[trigger] pre.manifest_match(w, repo, k);
            assert(self.manifest_match(w, repo, k));
            self.lemma_manifest_unique(w, repo, k);
            pre.lemma_manifest_unique(w, repo, k);
        }
        self.lemma_manifest_unique(n - 1, e.repo@, dkey(e.digest));
    }

    /// Consistency of blob and manifest stores carries over to any registry
    /// whose blob and manifest stores are the same, entry for entry.
    proof fn lemma_content_transfer(self, pre: Registry)
        requires
            pre.blobs_wf(),
            pre.manifests_wf(),
            self.blobs@ == pre.blobs@,
            self.manifests@ == pre.manifests@,
        ensures
            self.blobs_wf(),
            self.manifests_wf(),
            forall|repo: Seq<u8>, k: Seq<u8>|
                pre.has_blob(repo, k) == #[trigger] self.has_blob(repo, k),
            forall|repo: Seq<u8>, k: Seq<u8>|
                pre.has_manifest(repo, k) == #[trigger] self.has_manifest(repo, k),
            forall|repo: Seq<u8>, k: Seq<u8>|
                pre.has_manifest(repo, k) ==> #[trigger] self.manifest_entry(repo, k)
                    == pre.manifest_entry(repo, k),
    {
        assert forall|i: int, j: int| 0 <= i < j < self.blobs@.len() implies !(
        #[trigger] self.blob_match(j, self.blobs@[i].repo@, dkey(self.blobs@[i].digest))) by {
            assert(!pre.blob_match(j, pre.blobs@[i].repo@, dkey(pre.blobs@[i].digest)));
        }
        assert forall|i: int|
            0 <= i < self.blobs@.len() implies Self::blob_entry_wf(#[trigger] self.blobs@[i]) by {
            assert(Self::blob_entry_wf(pre.blobs@[i]));
        }
        assert forall|repo: Seq<u8>, k: Seq<u8>|
            pre.has_blob(repo, k) == #[trigger] self.has_blob(repo, k) by {
            if pre.has_blob(repo, k) {
                let w = choose|w: int|
                    0 <= w < pre.blobs@.len() && #[trigger] pre.blob_match(w, repo, k);
                assert(self.blob_match(w, repo, k));
            }
            if self.has_blob(repo, k) {
                let w = choose|w: int|
                    0 <= w < self.blobs@.len() && #[trigger] self.blob_match(w, repo, k);
                assert(pre.blob_match(w, repo, k));
            }
        }
        assert forall|repo: Seq<u8>, k: Seq<u8>|
            pre.has_manifest(repo, k) == #[trigger] self.has_manifest(repo, k) by {
            if pre.has_manifest(repo, k) {
                let w = choose|w: int|
                    0 <= w < pre.manifests@.len() && #[trigger] pre.manifest_match(w, repo, k);
                assert(self.manifest_match(w, repo, k));
            }
            if self.has_manifest(repo, k) {
                let w = choose|w: int|
                    0 <= w < self.manifests@.len() && #[trigger] self.manifest_match(w, repo, k);
                assert(pre.manifest_match(w, repo, k));
            }
        }
        assert forall|i: int, j: int| 0 <= i < j < self.manifests@.len() implies !(
        #[trigger] self.manifest_match(
            j,
            self.manifests@[i].repo@,
            dkey(self.manifests@[i].digest),
        )) by {
            assert(!pre.manifest_match(j, pre.manifests@[i].repo@, dkey(pre.manifests@[i].digest)));
        }
        assert forall|i: int|
            0 <= i < self.manifests@.len() implies Self::manifest_entry_wf(
            #[trigger] self.manifests@[i]) by {
            assert(Self::manifest_entry_wf(pre.manifests@[i]));
        }
        assert forall|i: int, j: int|
            0 <= i < self.manifests@.len() && 0 <= j
                < self.manifests@[i].refs@.len() implies {
            &&& valid_digest(#[trigger] self.manifests@[i].refs@[j])
            &&& !self.manifests@[i].index ==> self.has_blob(
                self.manifests@[i].repo@,
                dkey(self.manifests@[i].refs@[j]),
            )
            &&& self.manifests@[i].index ==> self.has_manifest(
                self.manifests@[i].repo@,
                dkey(self.manifests@[i].refs@[j]),
            )
        } by {
            assert(valid_digest(pre.manifests@[i].refs@[j]));
            let repo = pre.manifests@[i].repo@;
            let k = dkey(pre.manifests@[i].refs@[j]);
            if !pre.manifests@[i].index {
                assert(pre.has_blob(repo, k));
            } else {
                assert(pre.has_manifest(repo, k));
            }
        }
        assert forall|repo: Seq<u8>, k: Seq<u8>|
            pre.has_manifest(repo, k) implies #[trigger] self.manifest_entry(repo, k)
                == pre.manifest_entry(repo, k) by {
            let w = choose|w: int|
                0 <= w < pre.manifests@.len() && #[trigger] pre.manifest_match(w, repo, k);
            assert(self.manifest_match(w, repo, k));
            self.lemma_manifest_unique(w, repo, k);
            pre.lemma_manifest_unique(w, repo, k);
        }
    }

    /// Accepts a manifest: parses it, checks every digest it references
    /// against the store, persists it under the digest of its bytes, and,
    /// for a tag reference, atomically creates or replaces the tag mapping.
    ///
    /// A reference that parses as a digest must equal the computed digest.
    /// Any failure leaves the registry exactly as it was, with
    /// `ManifestInvalid` for an unparseable or unrecognized body, a missing
    /// referenced digest, or an inadmissible reference.
    #[verifier::rlimit(100)]
    pub fn put_manifest(
        &mut self,
        repo: &[u8],
        reference: &[u8],
        bytes_in: &[u8],
        content_type: &[u8],
    ) -> (r: Result<ContentDigest, ErrorKind>)
        requires
            old(self).wf(),
        ensures
            final (self).wf(),
            final (self).blobs@ == old(self).blobs@,
            final (self).sessions@ == old(self).sessions@,
            (r is Ok) <==> (valid_repo_name(repo@) && (match crate::manifest::spec_parse_manifest(
                bytes_in@,
            ) {
                Some(m) => old(self).refs_present(repo@, m) && reference_admissible(
                    reference@,
                    bytes_in@,
                ),
                None => false,
            })),
            match r {
                Ok(d) => {
                    &&& d.alg == Algorithm::Sha256
                    &&& d.hex@ == sha256_hex(bytes_in@)
                    &&& valid_digest(d)
                    &&& final (self).has_manifest(repo@, dkey(d))
                    &&& (!old(self).has_manifest(repo@, dkey(d)) ==> {
                        &&& final (self).manifests@.len() == old(self).manifests@.len() + 1
                        &&& final (self).manifest_entry(repo@, dkey(d)).bytes@ == bytes_in@
                        &&& final (self).manifest_entry(repo@, dkey(d)).content_type@
                            == content_type@
                    })
                    &&& (old(self).has_manifest(repo@, dkey(d)) ==> final (self).manifests@ == old(
                        self,
                    ).manifests@)
                    &&& forall|r2: Seq<u8>, k2: Seq<u8>|
                        old(self).has_manifest(r2, k2) ==> #[trigger] final (self).has_manifest(
                            r2,
                            k2,
                        )
                    &&& forall|r2: Seq<u8>, k2: Seq<u8>|
                        old(self).has_manifest(r2, k2) ==> #[trigger] final (self).manifest_entry(
                            r2,
                            k2,
                        ) == old(self).manifest_entry(r2, k2)
                    &&& (crate::digest::digest_parseable(reference@) ==> reference@ == dkey(d)
                        && final (self).tags@ == old(self).tags@)
                    &&& (!crate::digest::digest_parseable(reference@) ==> {
                        &&& valid_tag(reference@)
                        &&& final (self).has_tag(repo@, reference@)
                        &&& final (self).tag_digest(repo@, reference@).alg == d.alg
                        &&& final (self).tag_digest(repo@, reference@).hex@ == d.hex@
                    })
                    &&& forall|r2: Seq<u8>, t2: Seq<u8>|
                        !(r2 == repo@ && t2 == reference@) ==> (#[trigger] final (self).has_tag(
                            r2,
                            t2,
                        )) == old(self).has_tag(r2, t2)
                    &&& forall|r2: Seq<u8>, t2: Seq<u8>|
                        !(r2 == repo@ && t2 == reference@) && old(self).has_tag(r2, t2) ==> (
                        #[trigger] final (self).tag_digest(r2, t2)) == old(self).tag_digest(r2, t2)
                },
                Err(e) => {
                    &&& *final (self) == *old(self)
                    &&& (e == ErrorKind::NameInvalid <==> !valid_repo_name(repo@))
                    &&& (e == ErrorKind::NameInvalid || e == ErrorKind::ManifestInvalid)
                },
            },
    {
        if !check_repo_name(repo) {
            return Err(ErrorKind::NameInvalid);
        }
        let summary = match crate::manifest::parse_manifest(bytes_in) {
            None => {
                return Err(ErrorKind::ManifestInvalid);
            },
            Some(m) => m,
        };
        let ghost model = crate::manifest::summary_model(summary);
        let mut refs: Vec<ContentDigest> = Vec::new();
        let nrefs = summary.refs.len();
        let mut k: usize = 0;
        while k < nrefs
            invariant
                *self == *old(self),
                old(self).wf(),
                nrefs == summary.refs@.len(),
                k <= nrefs,
                model == crate::manifest::summary_model(summary),
                crate::manifest::spec_parse_manifest(bytes_in@) == Some(model),
                valid_repo_name(repo@),
                refs@.len() == k,
                forall|j: int|
                    0 <= j < k ==> valid_digest(#[trigger] refs@[j]) && dkey(refs@[j])
                        == summary.refs@[j]@,
                forall|j: int|
                    0 <= j < k ==> crate::digest::digest_parseable(
                        (#[trigger] summary.refs@[j])@,
                    ) && (summary.is_index ==> self.has_manifest(repo@, summary.refs@[j]@)) && (
                    !summary.is_index ==> self.has_blob(repo@, summary.refs@[j]@)),
            decreases nrefs - k,
        {
            let d = match crate::digest::parse_digest(summary.refs[k].as_slice()) {
                Err(_) => {
                    proof {
                        assert(model.refs.len() == nrefs);
                        assert(model.refs[k as int] == summary.refs@[k as int]@);
                        assert(!crate::digest::digest_parseable(model.refs[k as int]));
                        if old(self).refs_present(repo@, model) {
                            assert(crate::digest::digest_parseable(model.refs[k as int]));
                        }
                    }
                    return Err(ErrorKind::ManifestInvalid);
                },
                Ok(d) => d,
            };
            let dk = crate::digest::format_digest(&d);
            proof {
                assert(dk@ == summary.refs@[k as int]@);
            }
            let present = if summary.is_index {
                match self.find_manifest(repo, dk.as_slice()) {
                    Some(_) => true,
                    None => false,
                }
            } else {
                match self.find_blob(repo, dk.as_slice()) {
                    Some(i) => {
                        proof {
                            assert(self.blob_match(i as int, repo@, dk@));
                        }
                        true
                    },
                    None => false,
                }
            };
            if !present {
                proof {
                    assert(model.refs.len() == nrefs);
                    assert(model.refs[k as int] == summary.refs@[k as int]@);
                    if old(self).refs_present(repo@, model) {
                        assert(crate::digest::digest_parseable(model.refs[k as int]));
                        assert(model.is_index ==> old(self).has_manifest(
                            repo@,
                            model.refs[k as int],
                        ));
                        assert(!model.is_index ==> old(self).has_blob(repo@, model.refs[k as int]));
                    }
                }
                return Err(ErrorKind::ManifestInvalid);
            }
            refs.push(d);
            k = k + 1;
        }
        let dig = crate::hashing::sha256_digest(bytes_in);
        let tag_write: bool;
        match crate::digest::parse_digest(reference) {
            Ok(dref) => {
                if !digest_eq(&dref, &dig) {
                    proof {
                        assert(crate::digest::digest_parseable(reference@));
                        if reference@ == spec_canonical(Algorithm::Sha256, sha256_hex(bytes_in@)) {
                            crate::digest::lemma_canonical_injective(dref, dig);
                        }
                    }
                    return Err(ErrorKind::ManifestInvalid);
                }
                proof {
                    assert(crate::digest::digest_parseable(reference@));
                    assert(reference@ == dkey(dig));
                }
                tag_write = false;
            },
            Err(_) => {
                if !check_tag(reference) {
                    return Err(ErrorKind::ManifestInvalid);
                }
                tag_write = true;
            },
        }
        proof {
            assert forall|j: int|
                0 <= j < model.refs.len() implies {
                &&& crate::digest::digest_parseable(#[trigger] model.refs[j])
                &&& (model.is_index ==> old(self).has_manifest(repo@, model.refs[j]))
                &&& (!model.is_index ==> old(self).has_blob(repo@, model.refs[j]))
            } by {
                assert(model.refs[j] == summary.refs@[j]@);
            }
            assert(old(self).refs_present(repo@, model));
        }
        let key = crate::digest::format_digest(&dig);
        let fresh = match self.find_manifest(repo, key.as_slice()) {
            None => true,
            Some(i) => {
                proof {
                    assert(self.manifest_match(i as int, repo@, dkey(dig)));
                }
                false
            },
        };
        if fresh {
            let entry = ManifestEntry {
                repo: copy_bytes(repo),
                digest: ContentDigest { alg: Algorithm::Sha256, hex: copy_bytes(dig.hex.as_slice()) },
                bytes: copy_bytes(bytes_in),
                content_type: copy_bytes(content_type),
                refs,
                index: summary.is_index,
            };
            proof {
                assert(dkey(entry.digest) =~= dkey(dig));
                assert(Self::manifest_entry_wf(entry));
            }
            self.manifests.push(entry);
            proof {
                self.lemma_manifests_push(*old(self), self.manifests@.last());
                self.lemma_sessions_transfer(*old(self));
            }
        }
        let ghost mid = *self;
        proof {
            if !fresh {
                mid.lemma_content_transfer(*old(self));
                mid.lemma_sessions_transfer(*old(self));
                assert(mid.tags_wf());
            }
            assert(mid.wf());
            assert(mid.has_manifest(repo@, dkey(dig)));
        }
        if tag_write {
            let td = ContentDigest { alg: Algorithm::Sha256, hex: copy_bytes(dig.hex.as_slice()) };
            match self.find_tag(repo, reference) {
                Some(i) => {
                    proof {
                        mid.lemma_tag_unique(i as int, repo@, reference@);
                    }
                    let mut t = self.tags.remove(i);
                    t.digest = td;
                    self.tags.insert(i, t);
                    proof {
                        let ti = i as int;
                        assert(self.tags@ =~= mid.tags@.update(ti, self.tags@[ti]));
                        self.lemma_content_transfer(mid);
                        self.lemma_sessions_transfer(mid);
                        assert forall|a: int, b: int| 0 <= a < b < self.tags@.len() implies !(
                        #[trigger] self.tag_match(b, self.tags@[a].repo@, self.tags@[a].tag@)) by {
                            assert(!mid.tag_match(b, mid.tags@[a].repo@, mid.tags@[a].tag@));
                        }
                        assert forall|a: int|
                            0 <= a < self.tags@.len() implies {
                            &&& valid_repo_name((#[trigger] self.tags@[a]).repo@)
                            &&& valid_tag(self.tags@[a].tag@)
                            &&& self.has_manifest(self.tags@[a].repo@, dkey(self.tags@[a].digest))
                        } by {
                            if a != ti {
                                assert(valid_repo_name(mid.tags@[a].repo@));
                                assert(mid.has_manifest(mid.tags@[a].repo@, dkey(mid.tags@[a].digest)));
                            } else {
                                assert(valid_repo_name(mid.tags@[a].repo@));
                                assert(valid_tag(mid.tags@[a].tag@));
                                assert(dkey(self.tags@[a].digest) =~= dkey(dig));
                                assert(mid.has_manifest(repo@, dkey(dig)));
                            }
                        }
                        assert(self.tag_match(ti, repo@, reference@));
                        self.lemma_tag_unique(ti, repo@, reference@);
                        assert forall|r2: Seq<u8>, t2: Seq<u8>|
                            !(r2 == repo@ && t2 == reference@) implies (#[trigger] self.has_tag(
                            r2,
                            t2,
                        )) == old(self).has_tag(r2, t2) by {
                            if old(self).has_tag(r2, t2) {
                                let w = choose|w: int|
                                    0 <= w < old(self).tags@.len() && #[trigger] old(
                                        self,
                                    ).tag_match(w, r2, t2);
                                assert(self.tag_match(w, r2, t2));
                            }
                            if self.has_tag(r2, t2) {
                                let w = choose|w: int|
                                    0 <= w < self.tags@.len() && #[trigger] self.tag_match(
                                        w,
                                        r2,
                                        t2,
                                    );
                                assert(old(self).tag_match(w, r2, t2));
                            }
                        }
                        assert forall|r2: Seq<u8>, t2: Seq<u8>|
                            !(r2 == repo@ && t2 == reference@) && old(self).has_tag(
                                r2,
                                t2,
                            ) implies (#[trigger] self.tag_digest(r2, t2)) == old(self).tag_digest(
                            r2,
                            t2,
                        ) by {
                            let w = choose|w: int|
                                0 <= w < old(self).tags@.len() && #[trigger] old(self).tag_match(
                                    w,
                                    r2,
                                    t2,
                                );
                            assert(old(self).tags@[ti].repo@ == repo@);
                            assert(old(self).tags@[ti].tag@ == reference@);
                            assert(w != ti);
                            assert(self.tags@[w] == old(self).tags@[w]);
                            assert(self.tag_match(w, r2, t2));
                            self.lemma_tag_unique(w, r2, t2);
                            old(self).lemma_tag_unique(w, r2, t2);
                        }
                    }
                },
                None => {
                    self.tags.push(
                        TagEntry {
                            repo: copy_bytes(repo),
                            tag: copy_bytes(reference),
                            digest: td,
                        },
                    );
                    proof {
                        let n = self.tags@.len();
                        self.lemma_content_transfer(mid);
                        self.lemma_sessions_transfer(mid);
                        assert forall|a: int, b: int| 0 <= a < b < n implies !(
                        #[trigger] self.tag_match(b, self.tags@[a].repo@, self.tags@[a].tag@)) by {
                            if b == n - 1 {
                                assert(!mid.tag_match(a, repo@, reference@));
                            } else {
                                assert(!mid.tag_match(b, mid.tags@[a].repo@, mid.tags@[a].tag@));
                            }
                        }
                        assert forall|a: int|
                            0 <= a < n implies {
                            &&& valid_repo_name((#[trigger] self.tags@[a]).repo@)
                            &&& valid_tag(self.tags@[a].tag@)
                            &&& self.has_manifest(self.tags@[a].repo@, dkey(self.tags@[a].digest))
                        } by {
                            if a < n - 1 {
                                assert(valid_repo_name(mid.tags@[a].repo@));
                                assert(valid_tag(mid.tags@[a].tag@));
                                assert(mid.has_manifest(mid.tags@[a].repo@, dkey(mid.tags@[a].digest)));
                            } else {
                                assert(dkey(self.tags@[a].digest) =~= dkey(dig));
                                assert(mid.has_manifest(repo@, dkey(dig)));
                            }
                        }
                        assert(self.tag_match(n - 1, repo@, reference@));
                        self.lemma_tag_unique(n - 1, repo@, reference@);
                        assert forall|r2: Seq<u8>, t2: Seq<u8>|
                            !(r2 == repo@ && t2 == reference@) implies (#[trigger] self.has_tag(
                            r2,
                            t2,
                        )) == old(self).has_tag(r2, t2) by {
                            if old(self).has_tag(r2, t2) {
                                let w = choose|w: int|
                                    0 <= w < old(self).tags@.len() && #[trigger] old(
                                        self,
                                    ).tag_match(w, r2, t2);
                                assert(self.tag_match(w, r2, t2));
                            }
                            if self.has_tag(r2, t2) {
                                let w = choose|w: int|
                                    0 <= w < self.tags@.len() && #[trigger] self.tag_match(
                                        w,
                                        r2,
                                        t2,
                                    );
                                if w == n - 1 {
                                    assert(false);
                                } else {
                                    assert(old(self).tag_match(w, r2, t2));
                                }
                            }
                        }
                        assert forall|r2: Seq<u8>, t2: Seq<u8>|
                            !(r2 == repo@ && t2 == reference@) && old(self).has_tag(
                                r2,
                                t2,
                            ) implies (#[trigger] self.tag_digest(r2, t2)) == old(self).tag_digest(
                            r2,
                            t2,
                        ) by {
                            let w = choose|w: int|
                                0 <= w < old(self).tags@.len() && #[trigger] old(self).tag_match(
                                    w,
                                    r2,
                                    t2,
                                );
                            assert(self.tag_match(w, r2, t2));
                            self.lemma_tag_unique(w, r2, t2);
                            old(self).lemma_tag_unique(w, r2, t2);
                        }
                    }
                },
            }
        }
        proof {
            self.lemma_content_transfer(mid);
            if !tag_write {
                assert forall|r2: Seq<u8>, t2: Seq<u8>|
                    !(r2 == repo@ && t2 == reference@) implies (#[trigger] self.has_tag(r2, t2))
                        == old(self).has_tag(r2, t2) by {
                    if old(self).has_tag(r2, t2) {
                        let w = choose|w: int|
                            0 <= w < old(self).tags@.len() && #[trigger] old(self).tag_match(
                                w,
                                r2,
                                t2,
                            );
                        assert(self.tag_match(w, r2, t2));
                    }
                    if self.has_tag(r2, t2) {
                        let w = choose|w: int|
                            0 <= w < self.tags@.len() && #[trigger] self.tag_match(w, r2, t2);
                        assert(old(self).tag_match(w, r2, t2));
                    }
                }
                assert forall|r2: Seq<u8>, t2: Seq<u8>|
                    !(r2 == repo@ && t2 == reference@) && old(self).has_tag(r2, t2) implies (
                #[trigger] self.tag_digest(r2, t2)) == old(self).tag_digest(r2, t2) by {
                    let w = choose|w: int|
                        0 <= w < old(self).tags@.len() && #[trigger] old(self).tag_match(
                            w,
                            r2,
                            t2,
                        );
                    assert(self.tag_match(w, r2, t2));
                    self.lemma_tag_unique(w, r2, t2);
                    old(self).lemma_tag_unique(w, r2, t2);
                }
            }
            assert forall|r2: Seq<u8>, k2: Seq<u8>|
                old(self).has_manifest(r2, k2) implies #[trigger] self.has_manifest(r2, k2) by {
                assert(mid.has_manifest(r2, k2));
            }
            assert forall|r2: Seq<u8>, k2: Seq<u8>|
                old(self).has_manifest(r2, k2) implies #[trigger] self.manifest_entry(r2, k2)
                    == old(self).manifest_entry(r2, k2) by {
                assert(mid.has_manifest(r2, k2));
                assert(self.manifest_entry(r2, k2) == mid.manifest_entry(r2, k2));
            }
        }
        Ok(dig)
    }

    /// Serves a stored manifest by digest or by tag.
    ///
    /// Returns the raw bytes, the recorded content type and the manifest's
    /// digest; `ManifestUnknown` when nothing is stored under the reference.
    pub fn get_manifest(&self, repo: &[u8], reference: &[u8]) -> (r: Result<
        (Vec<u8>, Vec<u8>, ContentDigest),
        ErrorKind,
    >)
        requires
            self.wf(),
        ensures
            match r {
                Ok((b, ct, d)) => {
                    &&& valid_digest(d)
                    &&& d.alg == Algorithm::Sha256
                    &&& d.hex@ == sha256_hex(b@)
                    &&& self.has_manifest(repo@, dkey(d))
                    &&& b@ == self.manifest_entry(repo@, dkey(d)).bytes@
                    &&& ct@ == self.manifest_entry(repo@, dkey(d)).content_type@
                    &&& (crate::digest::digest_parseable(reference@) ==> dkey(d) == reference@)
                    &&& (!crate::digest::digest_parseable(reference@) ==> self.has_tag(
                        repo@,
                        reference@,
                    ) && dkey(self.tag_digest(repo@, reference@)) == dkey(d))
                },
                Err(e) => {
                    &&& e == ErrorKind::ManifestUnknown
                    &&& (crate::digest::digest_parseable(reference@) ==> !self.has_manifest(
                        repo@,
                        reference@,
                    ))
                    &&& (!crate::digest::digest_parseable(reference@) ==> !self.has_tag(
                        repo@,
                        reference@,
                    ))
                },
            },
    {
        match crate::digest::parse_digest(reference) {
            Ok(_dref) => {
                proof {
                    assert(crate::digest::digest_parseable(reference@));
                }
                match self.find_manifest(repo, reference) {
                    None => Err(ErrorKind::ManifestUnknown),
                    Some(i) => {
                        proof {
                            assert(self.manifest_match(i as int, repo@, reference@));
                            self.lemma_manifest_unique(i as int, repo@, reference@);
                            assert(Self::manifest_entry_wf(self.manifests@[i as int]));
                        }
                        let e = &self.manifests[i];
                        let d = ContentDigest {
                            alg: Algorithm::Sha256,
                            hex: copy_bytes(e.digest.hex.as_slice()),
                        };
                        proof {
                            assert(dkey(d) =~= dkey(e.digest));
                        }
                        Ok((copy_bytes(e.bytes.as_slice()), copy_bytes(e.content_type.as_slice()), d))
                    },
                }
            },
            Err(_) => {
                match self.find_tag(repo, reference) {
                    None => Err(ErrorKind::ManifestUnknown),
                    Some(ti) => {
                        proof {
                            assert(self.tag_match(ti as int, repo@, reference@));
                            self.lemma_tag_unique(ti as int, repo@, reference@);
                        }
                        let key = crate::digest::format_digest(&self.tags[ti].digest);
                        match self.find_manifest(repo, key.as_slice()) {
                            None => {
                                proof {
                                    assert(self.has_manifest(
                                        self.tags@[ti as int].repo@,
                                        dkey(self.tags@[ti as int].digest),
                                    ));
                                    assert(false);
                                }
                                Err(ErrorKind::ManifestUnknown)
                            },
                            Some(i) => {
                                proof {
                                    assert(self.manifest_match(i as int, repo@, key@));
                                    self.lemma_manifest_unique(i as int, repo@, key@);
                                    assert(Self::manifest_entry_wf(self.manifests@[i as int]));
                                }
                                let e = &self.manifests[i];
                                let d = ContentDigest {
                                    alg: Algorithm::Sha256,
                                    hex: copy_bytes(e.digest.hex.as_slice()),
                                };
                                proof {
                                    assert(dkey(d) =~= dkey(e.digest));
                                }
                                Ok((
                                    copy_bytes(e.bytes.as_slice()),
                                    copy_bytes(e.content_type.as_slice()),
                                    d,
                                ))
                            },
                        }
                    },
                }
            },
        }
    }

    /// Serves a committed blob addressed by a digest string, as the
    /// transport hands it: `DigestInvalid` for a string that is no
    /// canonical digest, `BlobUnknown` for a digest never committed here.
    pub fn pull_blob_str(&self, repo: &[u8], digest_str: &[u8]) -> (r: Result<&Vec<u8>, ErrorKind>)
        requires
            self.wf(),
        ensures
            match r {
                Ok(bytes) => {
                    &&& crate::digest::digest_parseable(digest_str@)
                    &&& self.has_blob(repo@, digest_str@)
                    &&& bytes@ == self.blob_entry(repo@, digest_str@).bytes@
                },
                Err(e) => {
                    &&& (e == ErrorKind::DigestInvalid <==> !crate::digest::digest_parseable(
                        digest_str@,
                    ))
                    &&& (e == ErrorKind::BlobUnknown ==> !self.has_blob(repo@, digest_str@))
                    &&& (e == ErrorKind::DigestInvalid || e == ErrorKind::BlobUnknown)
                },
            },
    {
        match crate::digest::parse_digest(digest_str) {
            Err(_) => Err(ErrorKind::DigestInvalid),
            Ok(d) => {
                proof {
                    assert(crate::digest::digest_parseable(digest_str@));
                    assert(dkey(d) == digest_str@);
                }
                self.pull_blob(repo, &d)
            },
        }
    }

    /// Deletion is not offered: every request answers `Unsupported`.
    pub fn delete_manifest(&self, _repo: &[u8], _reference: &[u8]) -> (r: Result<(), ErrorKind>)
        ensures
            r == Err::<(), ErrorKind>(ErrorKind::Unsupported),
    {
        Err(ErrorKind::Unsupported)
    }

    /// Reports whether a blob with that canonical digest key is committed.
    pub fn blob_exists(&self, repo: &[u8], digest: &ContentDigest) -> (r: bool)
        ensures
            r == self.has_blob(repo@, dkey(*digest)),
    {
        let key = crate::digest::format_digest(digest);
        match self.find_blob(repo, key.as_slice()) {
            Some(i) => {
                proof {
                    assert(self.blob_match(i as int, repo@, dkey(*digest)));
                }
                true
            },
            None => false,
        }
    }

    /// Serves a committed blob for reading.
    ///
    /// Returns the stored bytes, whose digest is the one asked for; a digest
    /// never committed in that repository answers `BlobUnknown`.
    pub fn pull_blob(&self, repo: &[u8], digest: &ContentDigest) -> (r: Result<
        &Vec<u8>,
        ErrorKind,
    >)
        requires
            self.wf(),
        ensures
            match r {
                Ok(bytes) => {
                    &&& self.has_blob(repo@, dkey(*digest))
                    &&& bytes@ == self.blob_entry(repo@, dkey(*digest)).bytes@
                    &&& digest.alg == Algorithm::Sha256 ==> digest.hex@ == sha256_hex(bytes@)
                },
                Err(e) => e == ErrorKind::BlobUnknown && !self.has_blob(repo@, dkey(*digest)),
            },
    {
        let key = crate::digest::format_digest(digest);
        match self.find_blob(repo, key.as_slice()) {
            Some(i) => {
                proof {
                    assert(self.blob_match(i as int, repo@, dkey(*digest)));
                    self.lemma_blob_unique(i as int, repo@, dkey(*digest));
                    let e = self.blobs@[i as int];
                    if digest.alg == Algorithm::Sha256 {
                        let c = dkey(*digest);
                        assert(digest.hex@ =~= c.subrange(7, c.len() as int));
                        assert(e.digest.hex@ =~= dkey(e.digest).subrange(
                            7,
                            dkey(e.digest).len() as int,
                        ));
                    }
                }
                Ok(&self.blobs[i].bytes)
            },
            None => Err(ErrorKind::BlobUnknown),
        }
    }

    /// An open session is idle at `now`: nothing touched it within `ttl`.
    pub open spec fn session_expired(s: UploadSession, now: u64, ttl: u64) -> bool {
        s.last_activity + ttl < now
    }

    /// Sweeps idle sessions: aborts and removes every session whose last
    /// activity lies more than `ttl` before `now`, and touches nothing
    /// else.
    pub fn sweep_idle(&mut self, now: u64, ttl: u64)
        requires
            old(self).wf(),
        ensures
            final (self).wf(),
            final (self).blobs@ == old(self).blobs@,
            final (self).manifests@ == old(self).manifests@,
            final (self).tags@ == old(self).tags@,
            forall|s: Seq<u8>|
                #[trigger] final (self).has_session(s) <==> (old(self).has_session(s)
                    && !Self::session_expired(old(self).session_entry(s), now, ttl)),
            forall|s: Seq<u8>|
                old(self).has_session(s) && !Self::session_expired(
                    old(self).session_entry(s),
                    now,
                    ttl,
                ) ==> #[trigger] final (self).session_entry(s) == old(self).session_entry(s),
    {
        let mut i: usize = 0;
        while i < self.sessions.len()
            invariant
                old(self).wf(),
                self.sessions_wf(),
                self.blobs@ == old(self).blobs@,
                self.manifests@ == old(self).manifests@,
                self.tags@ == old(self).tags@,
                i <= self.sessions@.len(),
                forall|k: int|
                    0 <= k < i ==> !Self::session_expired(#[trigger] self.sessions@[k], now, ttl),
                forall|s: Seq<u8>|
                    #[trigger] self.has_session(s) ==> old(self).has_session(s)
                        && self.session_entry(s) == old(self).session_entry(s),
                forall|s: Seq<u8>|
                    old(self).has_session(s) && !Self::session_expired(
                        old(self).session_entry(s),
                        now,
                        ttl,
                    ) ==> #[trigger] self.has_session(s),
            decreases self.sessions@.len() - i,
        {
            let la = self.sessions[i].last_activity;
            let expired = la < now && now - la > ttl;
            if expired {
                let ghost pre = *self;
                let ghost gone = self.sessions@[i as int].id@;
                proof {
                    pre.lemma_session_unique(i as int, gone);
                }
                let _ = self.sessions.remove(i);
                proof {
                    self.lemma_sessions_remove(pre, i as int, gone);
                    assert(Self::session_expired(pre.session_entry(gone), now, ttl));
                    assert forall|s: Seq<u8>| #[trigger] self.has_session(s) implies old(
                        self,
                    ).has_session(s) && self.session_entry(s) == old(self).session_entry(s) by {
                        assert(s != gone);
                        assert(pre.has_session(s));
                    }
                    assert forall|s: Seq<u8>|
                        old(self).has_session(s) && !Self::session_expired(
                            old(self).session_entry(s),
                            now,
                            ttl,
                        ) implies #[trigger] self.has_session(s) by {
                        assert(pre.has_session(s));
                        if s == gone {
                            assert(pre.session_entry(s) == old(self).session_entry(s));
                        }
                    }
                }
            } else {
                i = i + 1;
            }
        }
        proof {
            self.lemma_stores_transfer(*old(self));
            assert forall|s: Seq<u8>| #[trigger] self.has_session(s) implies (old(
                self,
            ).has_session(s) && !Self::session_expired(old(self).session_entry(s), now, ttl)) by {
                let k = choose|k: int|
                    0 <= k < self.sessions@.len() && #[trigger] self.session_match(k, s);
                self.lemma_session_unique(k, s);
                assert(!Self::session_expired(self.sessions@[k], now, ttl));
            }
            assert forall|s: Seq<u8>|
                old(self).has_session(s) && !Self::session_expired(
                    old(self).session_entry(s),
                    now,
                    ttl,
                ) implies #[trigger] self.session_entry(s) == old(self).session_entry(s) by {
                assert(self.has_session(s));
            }
        }
    }

    /// Every committed blob carries the SHA-256 digest of its own bytes:
    /// for all (repository, digest) in the blob store, the stored bytes
    /// hash to the stored hex.
    pub proof fn lemma_blob_digest_integrity(self, repo: Seq<u8>, k: Seq<u8>)
        requires
            self.wf(),
            self.has_blob(repo, k),
        ensures
            self.blob_entry(repo, k).digest.alg == Algorithm::Sha256,
            self.blob_entry(repo, k).digest.hex@ == sha256_hex(self.blob_entry(repo, k).bytes@),
            dkey(self.blob_entry(repo, k).digest) == k,
            self.blob_entry(repo, k).repo@ == repo,
    {
        let i = choose|i: int| 0 <= i < self.blobs@.len() && #[trigger] self.blob_match(i, repo, k);
        assert(Self::blob_entry_wf(self.blobs@[i]));
        self.lemma_blob_unique(i, repo, k);
    }

    /// Every stored manifest carries the SHA-256 digest of its own raw
    /// bytes, so a manifest read back by digest hashes to that digest.
    pub proof fn lemma_manifest_digest_integrity(self, repo: Seq<u8>, k: Seq<u8>)
        requires
            self.wf(),
            self.has_manifest(repo, k),
        ensures
            self.manifest_entry(repo, k).digest.alg == Algorithm::Sha256,
            self.manifest_entry(repo, k).digest.hex@ == sha256_hex(
                self.manifest_entry(repo, k).bytes@,
            ),
            dkey(self.manifest_entry(repo, k).digest) == k,
    {
        let i = choose|i: int|
            0 <= i < self.manifests@.len() && #[trigger] self.manifest_match(i, repo, k);
        assert(Self::manifest_entry_wf(self.manifests@[i]));
        self.lemma_manifest_unique(i, repo, k);
    }

    /// Every digest a stored manifest references is present at all times:
    /// in the blob store for an image manifest, in the manifest store for
    /// an index. Content is never deleted, so what held at acceptance
    /// still holds.
    pub proof fn lemma_manifest_referential_integrity(self, repo: Seq<u8>, k: Seq<u8>)
        requires
            self.wf(),
            self.has_manifest(repo, k),
        ensures
            ({
                let e = self.manifest_entry(repo, k);
                match crate::manifest::spec_parse_manifest(e.bytes@) {
                    Some(m) => {
                        &&& e.repo@ == repo
                        &&& m.refs.len() == e.refs@.len()
                        &&& forall|j: int|
                            0 <= j < m.refs.len() ==> (m.is_index ==> self.has_manifest(
                                repo,
                                #[trigger] m.refs[j],
                            )) && (!m.is_index ==> self.has_blob(repo, m.refs[j]))
                    },
                    None => false,
                }
            }),
    {
        let i = choose|i: int|
            0 <= i < self.manifests@.len() && #[trigger] self.manifest_match(i, repo, k);
        self.lemma_manifest_unique(i, repo, k);
        let e = self.manifests@[i];
        assert(Self::manifest_entry_wf(e));
        let m = crate::manifest::spec_parse_manifest(e.bytes@)->Some_0;
        assert forall|j: int|
            0 <= j < m.refs.len() implies (m.is_index ==> self.has_manifest(
            repo,
            #[trigger] m.refs[j],
        )) && (!m.is_index ==> self.has_blob(repo, m.refs[j])) by {
            assert(valid_digest(e.refs@[j]));
            assert(dkey(e.refs@[j]) == m.refs[j]);
        }
    }

    /// At every point in an upload session's life, the accepted offset,
    /// the scratch length and the bytes fed to the running hash agree.
    pub proof fn lemma_session_accounting(self, id: Seq<u8>)
        requires
            self.wf(),
            self.has_session(id),
        ensures
            self.session_entry(id).offset == self.session_entry(id).data@.len(),
            hasher_fed(self.session_entry(id).hasher) == self.session_entry(id).data@,
            valid_repo_name(self.session_entry(id).repo@),
    {
        let i = choose|i: int|
            0 <= i < self.sessions@.len() && #[trigger] self.session_match(i, id);
        assert(Self::session_wf(self.sessions@[i]));
        self.lemma_session_unique(i, id);
    }

    /// No two open sessions share an id, so concurrently opened uploads
    /// always hand out distinct ids.
    pub proof fn lemma_session_ids_distinct(self, i: int, j: int)
        requires
            self.wf(),
            0 <= i < self.sessions@.len(),
            0 <= j < self.sessions@.len(),
            i != j,
        ensures
            self.sessions@[i].id@ != self.sessions@[j].id@,
    {
        if i < j {
            assert(!self.session_match(j, self.sessions@[i].id@));
        } else {
            assert(!self.session_match(i, self.sessions@[j].id@));
        }
    }

    /// A mapped tag always resolves to a stored manifest of its repository:
    /// a pull through a tag never observes a dangling or partial mapping.
    pub proof fn lemma_tag_resolves(self, repo: Seq<u8>, tag: Seq<u8>)
        requires
            self.wf(),
            self.has_tag(repo, tag),
        ensures
            self.has_manifest(repo, dkey(self.tag_digest(repo, tag))),
    {
        let i = choose|i: int| 0 <= i < self.tags@.len() && #[trigger] self.tag_match(i, repo, tag);
        self.lemma_tag_unique(i, repo, tag);
        assert(self.has_manifest(self.tags@[i].repo@, dkey(self.tags@[i].digest)));
    }

    /// In a well-formed registry a blob key matches at most one entry.
    pub proof fn lemma_blob_unique(self, i: int, repo: Seq<u8>, k: Seq<u8>)
        requires
            self.blobs_wf(),
            0 <= i < self.blobs@.len(),
            self.blob_match(i, repo, k),
        ensures
            self.blob_entry(repo, k) == self.blobs@[i],
            self.has_blob(repo, k),
    {
        let j = choose|j: int| 0 <= j < self.blobs@.len() && #[trigger] self.blob_match(j, repo, k);
        if i < j {
            assert(self.blob_match(j, self.blobs@[i].repo@, dkey(self.blobs@[i].digest)));
        } else if j < i {
            assert(self.blob_match(i, self.blobs@[j].repo@, dkey(self.blobs@[j].digest)));
        }
    }

    /// In a well-formed registry a manifest key matches at most one entry.
    pub proof fn lemma_manifest_unique(self, i: int, repo: Seq<u8>, k: Seq<u8>)
        requires
            self.manifests_wf(),
            0 <= i < self.manifests@.len(),
            self.manifest_match(i, repo, k),
        ensures
            self.manifest_entry(repo, k) == self.manifests@[i],
            self.has_manifest(repo, k),
    {
        let j = choose|j: int|
            0 <= j < self.manifests@.len() && #[trigger] self.manifest_match(j, repo, k);
        if i < j {
            assert(self.manifest_match(j, self.manifests@[i].repo@, dkey(self.manifests@[i].digest)));
        } else if j < i {
            assert(self.manifest_match(i, self.manifests@[j].repo@, dkey(self.manifests@[j].digest)));
        }
    }

    /// In a well-formed registry a (repository, tag) pair matches at most one
    /// entry.
    pub proof fn lemma_tag_unique(self, i: int, repo: Seq<u8>, tag: Seq<u8>)
        requires
            self.tags_wf(),
            0 <= i < self.tags@.len(),
            self.tag_match(i, repo, tag),
        ensures
            self.tag_digest(repo, tag) == self.tags@[i].digest,
            self.has_tag(repo, tag),
    {
        let j = choose|j: int| 0 <= j < self.tags@.len() && #[trigger] self.tag_match(j, repo, tag);
        if i < j {
            assert(self.tag_match(j, self.tags@[i].repo@, self.tags@[i].tag@));
        } else if j < i {
            assert(self.tag_match(i, self.tags@[j].repo@, self.tags@[j].tag@));
        }
    }

    /// In a well-formed registry a session id matches at most one entry.
    pub proof fn lemma_session_unique(self, i: int, id: Seq<u8>)
        requires
            self.sessions_wf(),
            0 <= i < self.sessions@.len(),
            self.session_match(i, id),
        ensures
            self.session_entry(id) == self.sessions@[i],
            self.has_session(id),
    {
        let j = choose|j: int|
            0 <= j < self.sessions@.len() && #[trigger] self.session_match(j, id);
        if i < j {
            assert(self.session_match(j, self.sessions@[i].id@));
        } else if j < i {
            assert(self.session_match(i, self.sessions@[j].id@));
        }
    }
}

} // verus!
