use vstd::prelude::*;
use vstd::pervasive::VecAdditionalExecFns;
use crate::chunks::DownloadMetadata;
use crate::message::StorageMessage;
use crate::peer::PeerAddress;
use crate::shared_file::{MetadataError, SharedFile};
use crate::MAX_FILES_TO_SHARE_AT_ONCE;
use crate::MAX_CHUNKS_REQUESTED_AT_ONCE as R_MAX;

verus! {

/// One entry of a directory listing, as the storage manager sees it: the
/// shared name (the partial-file extension already stripped), the size on
/// disk, whether the file is a partial download, and for a partial file
/// with content the manifest recovered from its trailer.
pub struct ScanEntry {
    pub name: String,
    pub payload_size: u64,
    pub unfinished: bool,
    pub resume: Option<DownloadMetadata>,
}

/// What one directory scan changed.
pub struct ScanOutcome {
    pub removed: Vec<String>,
    pub created: Vec<String>,
    pub ask_for_files: bool,
    pub change_detected: bool,
}

/// True when some listing entry carries this name.
pub open spec fn listing_has(entries: Seq<ScanEntry>, name: Seq<char>) -> bool {
    exists|k: int| 0 <= k < entries.len() && entries[k].name@ == name
}

/// True when no two listing entries carry the same name.
pub open spec fn listing_unique(entries: Seq<ScanEntry>) -> bool {
    forall|a: int, b: int| 0 <= a < b < entries.len() ==> entries[a].name@ != entries[b].name@
}

/// True when two records agree on everything the download logic reads:
/// the name, the manifest, the size, the completion, the in-flight
/// requests and the peer table. The display status may differ.
pub open spec fn same_download_state(f0: SharedFile, f1: SharedFile) -> bool {
    &&& f1.file_name@ == f0.file_name@
    &&& f1.download_metadata == f0.download_metadata
    &&& f1.file_size == f0.file_size
    &&& f1.file_completion == f0.file_completion
    &&& f1.chunks_requested == f0.chunks_requested
    &&& f1.peers_with_available_chunks == f0.peers_with_available_chunks
}

/// True when a listing entry names a file the scan would adopt: an unknown
/// name that is a non-empty finished file, a fresh partial file, or a
/// partial file whose recovered manifest fits its size and still has
/// chunks missing.
#[verifier::opaque]
pub open spec fn adoptable(files: Seq<SharedFile>, e: ScanEntry) -> bool {
    &&& !files_have(files, e.name@)
    &&& if e.unfinished {
        e.payload_size == 0 || (e.resume matches Some(dm) && e.payload_size > 0
            && crate::chunks::chunks_wf(dm.file_chunks@, e.payload_size)
            && crate::chunks::count_downloaded(dm.file_chunks@) < dm.file_chunks@.len())
    } else {
        e.payload_size > 0
    }
}

/// True when some unfinished file record carries this name.
pub open spec fn names_unfinished(files: Seq<SharedFile>, name: Seq<char>) -> bool {
    exists|j: int|
        0 <= j < files.len() && (#[trigger] files[j]).file_name@ == name
            && files[j].file_completion != 100
}

/// True when some file record carries this name.
pub open spec fn files_have(files: Seq<SharedFile>, name: Seq<char>) -> bool {
    exists|k: int| 0 <= k < files.len() && files[k].file_name@ == name
}

/// The storage manager: every shared file, and which peers wait for a
/// manifest that is still being hashed.
pub struct Manager {
    pub files: Vec<SharedFile>,
    pub processing_metadata_for_peers: Vec<(String, Vec<PeerAddress>)>,
}

impl Manager {
    /// Every record is well formed, no name is shared twice, and the
    /// manifest-request queue names each file at most once, with each
    /// waiting-peer list free of duplicates.
    pub open spec fn wf(self) -> bool {
        &&& forall|k: int| 0 <= k < self.files@.len() ==> (#[trigger] self.files@[k]).wf()
        &&& forall|a: int, b: int|
            0 <= a < b < self.files@.len() ==> (#[trigger] self.files@[a]).file_name@
                != (#[trigger] self.files@[b]).file_name@
        &&& forall|a: int, b: int|
            0 <= a < b < self.processing_metadata_for_peers@.len()
                ==> (#[trigger] self.processing_metadata_for_peers@[a]).0@
                != (#[trigger] self.processing_metadata_for_peers@[b]).0@
        &&& forall|k: int|
            0 <= k < self.processing_metadata_for_peers@.len() ==> crate::peer::peers_unique(
                (#[trigger] self.processing_metadata_for_peers@[k]).1@,
            )
    }

    pub fn create() -> (r: Manager)
        ensures
            r.wf(),
            r.files@.len() == 0,
            r.processing_metadata_for_peers@.len() == 0,
    {
        Manager { files: Vec::new(), processing_metadata_for_peers: Vec::new() }
    }

    /// The index of the record with this name.
    pub fn find_file(&self, name: &String) -> (r: Option<usize>)
        ensures
            match r {
                Some(i) => i < self.files@.len() && self.files@[i as int].file_name@ == name@,
                None => !files_have(self.files@, name@),
            },
    {
        let mut i: usize = 0;
        while i < self.files.len()
            invariant
                0 <= i <= self.files@.len(),
                forall|k: int| 0 <= k < i ==> (#[trigger] self.files@[k]).file_name@ != name@,
            decreases self.files@.len() - i,
        {
            if self.files[i].file_name == *name {
                return Some(i);
            }
            i = i + 1;
        }
        None
    }

    /// Performs one directory scan: forgets files whose backing file is
    /// gone from the listing, adopts newly found files while below the
    /// shared-file cap, ignores empty files that are not partial downloads,
    /// refreshes stale statuses, and reports whether to ask peers for their
    /// files. A scan over an unchanged directory adopts nothing and forgets
    /// nothing.
    #[verifier::loop_isolation(false)]
    #[verifier::rlimit(100)]
    #[verifier::spinoff_prover]
    pub fn check_directory(&mut self, entries: &Vec<ScanEntry>, now: u64) -> (out: ScanOutcome)
        requires
            old(self).wf(),
            listing_unique(entries@),
        ensures
            final(self).wf(),
            // every surviving or adopted record is named in the listing
            forall|k: int|
                0 <= k < final(self).files@.len() ==> listing_has(
                    entries@,
                    (#[trigger] final(self).files@[k]).file_name@,
                ),
            // a record the listing still names survives with its download
            // state intact; only the display status may have been refreshed
            forall|j: int|
                0 <= j < old(self).files@.len() && listing_has(
                    entries@,
                    (#[trigger] old(self).files@[j]).file_name@,
                ) ==> exists|k: int|
                    0 <= k < final(self).files@.len() && same_download_state(
                        old(self).files@[j],
                        #[trigger] final(self).files@[k],
                    ),
            // while the cap cannot be hit, every adoptable entry is adopted
            old(self).files@.len() + entries@.len() <= MAX_FILES_TO_SHARE_AT_ONCE ==> forall|
                e: int,
            |
                0 <= e < entries@.len() && adoptable(old(self).files@, #[trigger] entries@[e])
                    ==> files_have(final(self).files@, entries@[e].name@),
            !out.change_detected ==> out.removed@.len() == 0 && out.created@.len() == 0,
            // nothing already known is adopted again
            forall|k: int|
                0 <= k < out.created@.len() ==> !files_have(
                    old(self).files@,
                    (#[trigger] out.created@[k])@,
                ),
            // an empty file that is not a partial download is never adopted
            forall|k: int|
                0 <= k < entries@.len() && (#[trigger] entries@[k]).payload_size == 0
                    && !entries@[k].unfinished && !files_have(old(self).files@, entries@[k].name@)
                    ==> !files_have(final(self).files@, entries@[k].name@),
            out.ask_for_files == (final(self).files@.len() < MAX_FILES_TO_SHARE_AT_ONCE),
            final(self).files@.len() <= old(self).files@.len() + entries@.len(),
            final(self).processing_metadata_for_peers == old(self).processing_metadata_for_peers,
    {
        let mut removed: Vec<String> = Vec::new();
        let mut kept: Vec<SharedFile> = Vec::new();
        let ghost files0 = self.files@;
        let mut i: usize = 0;
        while i < self.files.len()
            invariant
                0 <= i <= self.files@.len(),
                self.files@.len() == files0.len(),
                self.processing_metadata_for_peers == old(self).processing_metadata_for_peers,
                forall|k: int| i <= k < files0.len() ==> #[trigger] self.files@[k] == files0[k],
                kept@.len() <= i,
                forall|k: int|
                    0 <= k < kept@.len() ==> listing_has(
                        entries@,
                        (#[trigger] kept@[k]).file_name@,
                    ),
                forall|k: int|
                    0 <= k < kept@.len() ==> (#[trigger] kept@[k]).wf(),
                forall|k: int|
                    0 <= k < kept@.len() ==> exists|j: int|
                        0 <= j < i && #[trigger] kept@[k] == files0[j],
                forall|a: int, b: int|
                    0 <= a < b < kept@.len() ==> (#[trigger] kept@[a]).file_name@
                        != (#[trigger] kept@[b]).file_name@,
                forall|j: int|
                    0 <= j < i && listing_has(entries@, (#[trigger] files0[j]).file_name@)
                        ==> exists|w: int| 0 <= w < kept@.len() && kept@[w] == files0[j],
            decreases self.files@.len() - i,
        {
            let mut sf = SharedFile::create_placeholder(String::new(), now);
            self.files.set_and_swap(i, &mut sf);
            let mut found = false;
            let mut e: usize = 0;
            while e < entries.len()
                invariant
                    0 <= e <= entries@.len(),
                    found ==> listing_has(entries@, sf.file_name@),
                    !found ==> forall|w: int|
                        0 <= w < e ==> (#[trigger] entries@[w]).name@ != sf.file_name@,
                decreases entries@.len() - e,
            {
                if entries[e].name == sf.file_name {
                    found = true;
                    proof {
                        assert(entries@[e as int].name@ == sf.file_name@);
                    }
                    break ;
                }
                e = e + 1;
            }
            let ghost kept_before = kept@;
            if found {
                proof {
                    assert(sf == files0[i as int]);
                    assert forall|a: int|
                        0 <= a < kept_before.len() implies (#[trigger] kept_before[a]).file_name@
                        != sf.file_name@ by {
                        let j = choose|j: int| 0 <= j < i && kept_before[a] == files0[j];
                        assert(files0[j].file_name@ != files0[i as int].file_name@);
                    }
                }
                kept.push(sf);
                proof {
                    assert forall|k: int|
                        0 <= k < kept@.len() implies exists|j: int|
                            0 <= j < i + 1 && #[trigger] kept@[k] == files0[j] by {
                        if k < kept_before.len() {
                            assert(kept@[k] == kept_before[k]);
                            let j = choose|j: int| 0 <= j < i && kept_before[k] == files0[j];
                            assert(kept@[k] == files0[j]);
                        } else {
                            assert(kept@[k] == files0[i as int]);
                        }
                    }
                }
            } else {
                removed.push(sf.file_name());
            }
            proof {
                assert forall|j: int|
                    0 <= j < i + 1 && listing_has(entries@, (#[trigger] files0[j]).file_name@)
                        implies exists|w: int| 0 <= w < kept@.len() && kept@[w] == files0[j] by {
                    if j < i {
                        let w = choose|w: int|
                            0 <= w < kept_before.len() && kept_before[w] == files0[j];
                        assert(kept@[w] == files0[j]);
                    } else {
                        if found {
                            assert(kept@[kept@.len() - 1] == files0[i as int]);
                        } else {
                            let w = choose|w: int|
                                0 <= w < entries@.len() && (#[trigger] entries@[w]).name@
                                    == files0[j].file_name@;
                            assert(entries@[w].name@ != sf.file_name@);
                        }
                    }
                }
            }
            i = i + 1;
        }
        self.files = kept;
        let mut created: Vec<String> = Vec::new();
        let ghost adopted_base = self.files@;
        proof {
            assert(adopted_base.len() <= files0.len());
            assert forall|j: int|
                0 <= j < files0.len() && listing_has(entries@, (#[trigger] files0[j]).file_name@)
                    implies exists|w: int|
                    0 <= w < adopted_base.len() && adopted_base[w] == files0[j] by {
            }
        }
        let mut e: usize = 0;
        while e < entries.len()
            invariant
                0 <= e <= entries@.len(),
                self.wf(),
                adopted_base.len() <= files0.len(),
                files0 == old(self).files@,
                self.files@.len() <= adopted_base.len() + e,
                self.processing_metadata_for_peers == old(self).processing_metadata_for_peers,
                forall|k: int|
                    0 <= k < self.files@.len() ==> listing_has(
                        entries@,
                        (#[trigger] self.files@[k]).file_name@,
                    ),
                forall|k: int|
                    0 <= k < adopted_base.len() ==> self.files@[k] == adopted_base[k],
                self.files@.len() >= adopted_base.len(),
                forall|k: int|
                    0 <= k < created@.len() ==> !files_have(files0, (#[trigger] created@[k])@),
                forall|j: int|
                    0 <= j < files0.len() && listing_has(entries@, (#[trigger] files0[j]).file_name@)
                        ==> files_have(self.files@, files0[j].file_name@),
                forall|k: int|
                    0 <= k < e && (#[trigger] entries@[k]).payload_size == 0
                        && !entries@[k].unfinished && !files_have(files0, entries@[k].name@)
                        ==> !files_have(self.files@, entries@[k].name@),
                forall|k: int|
                    0 <= k < self.files@.len() ==> (files_have(
                        files0,
                        (#[trigger] self.files@[k]).file_name@,
                    ) || exists|w: int| 0 <= w < e && entries@[w].name@ == self.files@[k].file_name@),
                files0.len() + entries@.len() <= MAX_FILES_TO_SHARE_AT_ONCE ==> forall|e2: int|
                    0 <= e2 < e && adoptable(files0, #[trigger] entries@[e2]) ==> files_have(
                        self.files@,
                        entries@[e2].name@,
                    ),
            decreases entries@.len() - e,
        {
            let ghost files_pre = self.files@;
            let entry = &entries[e];
            let known = self.find_file(&entry.name).is_some();
            let mut adopted = false;
            if !known && self.files.len() < MAX_FILES_TO_SHARE_AT_ONCE {
                if !entry.unfinished {
                    if entry.payload_size > 0 {
                        let sf = SharedFile::create_finished(
                            entry.name.clone(),
                            entry.payload_size,
                            now,
                        );
                        self.files.push(sf);
                        created.push(entry.name.clone());
                        adopted = true;
                    }
                } else {
                    if entry.payload_size == 0 {
                        let sf = SharedFile::create_placeholder(entry.name.clone(), now);
                        self.files.push(sf);
                        created.push(entry.name.clone());
                        adopted = true;
                    } else {
                        match &entry.resume {
                            None => {},
                            Some(dm) => {
                                let dm2 = dm.clone();
                                match SharedFile::create_resumed(
                                    entry.name.clone(),
                                    entry.payload_size,
                                    dm2,
                                    now,
                                ) {
                                    Ok(sf) => {
                                        self.files.push(sf);
                                        created.push(entry.name.clone());
                                        adopted = true;
                                    },
                                    Err(_) => {},
                                }
                            },
                        }
                    }
                }
            }
            proof {
                if adopted {
                    assert(self.files@.drop_last() == files_pre);
                    assert(self.files@.last().file_name@ == entries@[e as int].name@);
                    assert(listing_has(entries@, entries@[e as int].name@)) by {
                        assert(entries@[e as int].name@ == entries@[e as int].name@);
                    }
                    assert forall|a: int, b: int|
                        0 <= a < b < self.files@.len() implies (#[trigger] self.files@[a]).file_name@
                        != (#[trigger] self.files@[b]).file_name@ by {
                        if b == self.files@.len() - 1 {
                            assert(self.files@[a] == files_pre[a]);
                            if files_pre[a].file_name@ == self.files@[b].file_name@ {
                                assert(files_have(files_pre, self.files@[b].file_name@));
                            }
                        }
                    }
                    assert forall|j: int|
                        0 <= j < files0.len() && listing_has(
                            entries@,
                            (#[trigger] files0[j]).file_name@,
                        ) implies files_have(self.files@, files0[j].file_name@) by {
                        let k = choose|k: int|
                            0 <= k < files_pre.len() && files_pre[k].file_name@
                                == files0[j].file_name@;
                        assert(self.files@[k].file_name@ == files0[j].file_name@);
                    }
                    assert forall|k: int|
                        0 <= k < self.files@.len() implies (files_have(
                            files0,
                            (#[trigger] self.files@[k]).file_name@,
                        ) || exists|w: int|
                            0 <= w < e + 1 && entries@[w].name@
                                == self.files@[k].file_name@) by {
                        if k < files_pre.len() {
                            assert(self.files@[k] == files_pre[k]);
                            if exists|w: int|
                                0 <= w < e && entries@[w].name@ == files_pre[k].file_name@ {
                                let w = choose|w: int|
                                    0 <= w < e && entries@[w].name@ == files_pre[k].file_name@;
                                assert(entries@[w].name@ == self.files@[k].file_name@);
                            }
                        } else {
                            assert(entries@[e as int].name@ == self.files@[k].file_name@);
                        }
                    }
                    assert forall|k: int|
                        0 <= k < e + 1 && (#[trigger] entries@[k]).payload_size == 0
                            && !entries@[k].unfinished && !files_have(files0, entries@[k].name@)
                            implies !files_have(self.files@, entries@[k].name@) by {
                        if files_have(self.files@, entries@[k].name@) {
                            let w = choose|w: int|
                                0 <= w < self.files@.len() && self.files@[w].file_name@
                                    == entries@[k].name@;
                            if w < files_pre.len() {
                                assert(files_have(files_pre, entries@[k].name@));
                            } else {
                                assert(entries@[k].name@ == entries@[e as int].name@);
                                assert(k == e);
                            }
                        }
                    }
                    assert(files_have(self.files@, entries@[e as int].name@)) by {
                        assert(self.files@[self.files@.len() - 1].file_name@
                            == entries@[e as int].name@);
                    }
                } else {
                    assert(self.files@ == files_pre);
                    if files0.len() + entries@.len() <= MAX_FILES_TO_SHARE_AT_ONCE
                        && adoptable(files0, entries@[e as int]) {
                        reveal(adoptable);
                        // under the cap assumption an adoptable entry cannot
                        // have been skipped: it is unknown, a slot is free,
                        // and its shape admits one of the three constructors
                        assert(!files_have(files_pre, entries@[e as int].name@)) by {
                            if files_have(files_pre, entries@[e as int].name@) {
                                let w = choose|w: int|
                                    0 <= w < files_pre.len() && files_pre[w].file_name@
                                        == entries@[e as int].name@;
                                if exists|w2: int|
                                    0 <= w2 < e && entries@[w2].name@
                                        == files_pre[w].file_name@ {
                                    let w2 = choose|w2: int|
                                        0 <= w2 < e && entries@[w2].name@
                                            == files_pre[w].file_name@;
                                    assert(entries@[w2].name@ == entries@[e as int].name@);
                                } else {
                                    assert(files_have(files0, files_pre[w].file_name@));
                                }
                            }
                        }
                        assert(false);
                    }
                    assert forall|k: int|
                        0 <= k < e + 1 && (#[trigger] entries@[k]).payload_size == 0
                            && !entries@[k].unfinished && !files_have(files0, entries@[k].name@)
                            implies !files_have(self.files@, entries@[k].name@) by {
                        if k == e && files_have(self.files@, entries@[k].name@) {
                            let w = choose|w: int|
                                0 <= w < self.files@.len() && self.files@[w].file_name@
                                    == entries@[k].name@;
                            if exists|w2: int|
                                0 <= w2 < e && entries@[w2].name@ == self.files@[w].file_name@ {
                                let w2 = choose|w2: int|
                                    0 <= w2 < e && entries@[w2].name@
                                        == self.files@[w].file_name@;
                                assert(entries@[w2].name@ == entries@[e as int].name@);
                            } else {
                                assert(files_have(files0, self.files@[w].file_name@));
                            }
                        }
                    }
                }
            }
            proof {
                if files0.len() + entries@.len() <= MAX_FILES_TO_SHARE_AT_ONCE {
                    assert forall|e2: int|
                        0 <= e2 < e + 1 && adoptable(files0, #[trigger] entries@[e2])
                            implies files_have(self.files@, entries@[e2].name@) by {
                        if e2 < e {
                            let w = choose|w: int|
                                0 <= w < files_pre.len() && files_pre[w].file_name@
                                    == entries@[e2].name@;
                            assert(self.files@[w].file_name@ == entries@[e2].name@);
                        }
                    }
                }
            }
            e = e + 1;
        }
        let mut change_detected = removed.len() > 0 || created.len() > 0;
        let mut f: usize = 0;
        let ghost files_scanned = self.files@;
        while f < self.files.len()
            invariant
                0 <= f <= self.files@.len(),
                self.wf(),
                (removed@.len() > 0 || created@.len() > 0) ==> change_detected,
                self.files@.len() == files_scanned.len(),
                self.processing_metadata_for_peers == old(self).processing_metadata_for_peers,
                forall|k: int|
                    0 <= k < self.files@.len() ==> same_download_state(
                        files_scanned[k],
                        #[trigger] self.files@[k],
                    ),
                forall|k: int|
                    0 <= k < self.files@.len() ==> listing_has(
                        entries@,
                        (#[trigger] self.files@[k]).file_name@,
                    ),
                files0 == old(self).files@,
                adopted_base.len() <= files_scanned.len(),
                forall|k: int|
                    0 <= k < adopted_base.len() ==> files_scanned[k] == adopted_base[k],
                files0.len() + entries@.len() <= MAX_FILES_TO_SHARE_AT_ONCE ==> forall|e2: int|
                    0 <= e2 < entries@.len() && adoptable(files0, #[trigger] entries@[e2])
                        ==> files_have(self.files@, entries@[e2].name@),
                forall|j: int|
                    0 <= j < files0.len() && listing_has(entries@, (#[trigger] files0[j]).file_name@)
                        ==> files_have(self.files@, files0[j].file_name@),
                forall|k: int|
                    0 <= k < entries@.len() && (#[trigger] entries@[k]).payload_size == 0
                        && !entries@[k].unfinished && !files_have(files0, entries@[k].name@)
                        ==> !files_have(self.files@, entries@[k].name@),
            decreases self.files@.len() - f,
        {
            let ghost files_pre = self.files@;
            let mut sf = SharedFile::create_placeholder(String::new(), now);
            self.files.set_and_swap(f, &mut sf);
            if sf.update_status_if_needed(now) {
                change_detected = true;
            }
            self.files.set(f, sf);
            proof {
                assert forall|k: int|
                    0 <= k < self.files@.len() implies same_download_state(
                    files_scanned[k],
                    #[trigger] self.files@[k],
                ) by {
                    if k != f {
                        assert(self.files@[k] == files_pre[k]);
                    }
                }
                if files0.len() + entries@.len() <= MAX_FILES_TO_SHARE_AT_ONCE {
                    assert forall|e2: int|
                        0 <= e2 < entries@.len() && adoptable(files0, #[trigger] entries@[e2])
                            implies files_have(self.files@, entries@[e2].name@) by {
                        let w = choose|w: int|
                            0 <= w < files_pre.len() && files_pre[w].file_name@
                                == entries@[e2].name@;
                        assert(self.files@[w].file_name@ == entries@[e2].name@);
                    }
                }
                assert forall|j: int|
                    0 <= j < files0.len() && listing_has(
                        entries@,
                        (#[trigger] files0[j]).file_name@,
                    ) implies files_have(self.files@, files0[j].file_name@) by {
                    let k = choose|k: int|
                        0 <= k < files_pre.len() && files_pre[k].file_name@
                            == files0[j].file_name@;
                    assert(self.files@[k].file_name@ == files0[j].file_name@);
                }
                assert forall|k: int|
                    0 <= k < entries@.len() && (#[trigger] entries@[k]).payload_size == 0
                        && !entries@[k].unfinished && !files_have(files0, entries@[k].name@)
                        implies !files_have(self.files@, entries@[k].name@) by {
                    if files_have(self.files@, entries@[k].name@) {
                        let w = choose|w: int|
                            0 <= w < self.files@.len() && self.files@[w].file_name@
                                == entries@[k].name@;
                        assert(files_pre[w].file_name@ == entries@[k].name@);
                        assert(files_have(files_pre, entries@[k].name@));
                    }
                }
            }
            f = f + 1;
        }
        let ask_for_files = self.files.len() < MAX_FILES_TO_SHARE_AT_ONCE;
        proof {
            lemma_scan_survival(files0, adopted_base, files_scanned, self.files@, entries@);
        }
        ScanOutcome { removed, created, ask_for_files, change_detected }
    }
}

/// A record the listing still names survives a scan with its download
/// state intact: it was kept verbatim, carried through adoption, and only
/// its display status possibly refreshed.
proof fn lemma_scan_survival(
    files0: Seq<SharedFile>,
    adopted_base: Seq<SharedFile>,
    files_scanned: Seq<SharedFile>,
    files_final: Seq<SharedFile>,
    entries: Seq<ScanEntry>,
)
    requires
        adopted_base.len() <= files_scanned.len(),
        files_scanned.len() == files_final.len(),
        forall|k: int| 0 <= k < adopted_base.len() ==> files_scanned[k] == adopted_base[k],
        forall|k: int|
            0 <= k < files_final.len() ==> same_download_state(
                files_scanned[k],
                #[trigger] files_final[k],
            ),
        forall|j: int|
            0 <= j < files0.len() && listing_has(entries, (#[trigger] files0[j]).file_name@)
                ==> exists|w: int| 0 <= w < adopted_base.len() && adopted_base[w] == files0[j],
    ensures
        forall|j: int|
            0 <= j < files0.len() && listing_has(entries, (#[trigger] files0[j]).file_name@)
                ==> exists|k: int|
                0 <= k < files_final.len() && same_download_state(
                    files0[j],
                    #[trigger] files_final[k],
                ),
{
    assert forall|j: int|
        0 <= j < files0.len() && listing_has(entries, (#[trigger] files0[j]).file_name@)
            implies exists|k: int|
            0 <= k < files_final.len() && same_download_state(
                files0[j],
                #[trigger] files_final[k],
            ) by {
        let w = choose|w: int| 0 <= w < adopted_base.len() && adopted_base[w] == files0[j];
        assert(files_scanned[w] == files0[j]);
        assert(same_download_state(files_scanned[w], files_final[w]));
        assert(same_download_state(files0[j], files_final[w]));
    }
}

} // verus!

verus! {

use crate::shared_file::AppendOutcome;
use vstd::string::StringExecFns;

/// What to do with a manifest request from a peer.
pub enum MetadataRequest {
    /// A manifest is already held: send it along with the file size.
    SendNow(u64, DownloadMetadata),
    /// No manifest is held yet: start background hashing; the peer is
    /// queued for the result.
    StartHashing,
    /// Hashing is already under way: the peer is queued for the result.
    AlreadyHashing,
    /// The file is unknown or empty: nothing to send.
    NotAvailable,
}

/// True when some non-empty file record carries this name.
pub open spec fn advertised_ok(files: Seq<SharedFile>, name: Seq<char>) -> bool {
    exists|j: int|
        0 <= j < files.len() && files[j].file_name@ == name && files[j].file_size > 0
}

/// The names of the non-empty records, in table order.
pub open spec fn nonempty_names(files: Seq<SharedFile>) -> Seq<Seq<char>>
    decreases files.len(),
{
    if files.len() == 0 {
        Seq::<Seq<char>>::empty()
    } else {
        let p = nonempty_names(files.drop_last());
        if files.last().file_size > 0 {
            p.push(files.last().file_name@)
        } else {
            p
        }
    }
}

/// True when some queue entry carries this name.
pub open spec fn queue_has(q: Seq<(String, Vec<PeerAddress>)>, name: Seq<char>) -> bool {
    exists|k: int| 0 <= k < q.len() && q[k].0@ == name
}

/// True when `peer` waits for the manifest of the named file.
pub open spec fn queued(q: Seq<(String, Vec<PeerAddress>)>, name: Seq<char>, peer: PeerAddress) -> bool {
    exists|k: int|
        0 <= k < q.len() && q[k].0@ == name && crate::peer::peers_contain(q[k].1@, peer)
}

/// The index of the record that carries this name; meaningful only when
/// one does.
pub open spec fn the_index(files: Seq<SharedFile>, name: Seq<char>) -> int {
    choose|j: int| 0 <= j < files.len() && files[j].file_name@ == name
}

/// The record that carries this name; meaningful only when one does.
pub open spec fn the_file(files: Seq<SharedFile>, name: Seq<char>) -> SharedFile {
    files[the_index(files, name)]
}

/// The names a peer advertised that should be asked for again: those of
/// records held but not finished, in advertisement order.
pub open spec fn ask_plan(files: Seq<SharedFile>, fs: Seq<Seq<char>>) -> Seq<Seq<char>>
    decreases fs.len(),
{
    if fs.len() == 0 {
        Seq::<Seq<char>>::empty()
    } else {
        let p = ask_plan(files, fs.drop_last());
        let n = fs.last();
        if exists|j: int|
            0 <= j < files.len() && (#[trigger] files[j]).file_name@ == n
                && files[j].file_completion != 100 {
            p.push(n)
        } else {
            p
        }
    }
}

/// The advertised names worth adopting: the unknown ones, deduplicated,
/// while slots below the shared-file cap remain.
pub open spec fn adopt_plan(files: Seq<SharedFile>, fs: Seq<Seq<char>>, cap: int) -> Seq<Seq<char>>
    decreases fs.len(),
{
    if fs.len() == 0 {
        Seq::<Seq<char>>::empty()
    } else {
        let p = adopt_plan(files, fs.drop_last(), cap);
        let n = fs.last();
        if !files_have(files, n) && p.len() + files.len() < cap && !p.contains(n) {
            p.push(n)
        } else {
            p
        }
    }
}

impl Manager {
    /// The index of the queue entry waiting on this name.
    fn find_queue(&self, name: &String) -> (r: Option<usize>)
        ensures
            match r {
                Some(i) => i < self.processing_metadata_for_peers@.len()
                    && self.processing_metadata_for_peers@[i as int].0@ == name@,
                None => !queue_has(self.processing_metadata_for_peers@, name@),
            },
    {
        let mut i: usize = 0;
        while i < self.processing_metadata_for_peers.len()
            invariant
                0 <= i <= self.processing_metadata_for_peers@.len(),
                forall|k: int|
                    0 <= k < i ==> (#[trigger] self.processing_metadata_for_peers@[k]).0@
                        != name@,
            decreases self.processing_metadata_for_peers@.len() - i,
        {
            if self.processing_metadata_for_peers[i].0 == *name {
                return Some(i);
            }
            i = i + 1;
        }
        None
    }

    /// The names of the files worth advertising: exactly those of the
    /// records that are not empty placeholders, in table order.
    pub fn list_nonempty_files(&self) -> (r: Vec<String>)
        ensures
            crate::message::strings_view(r@) == nonempty_names(self.files@),
            forall|k: int|
                0 <= k < r@.len() ==> advertised_ok(self.files@, (#[trigger] r@[k])@),
    {
        let mut r: Vec<String> = Vec::new();
        let mut i: usize = 0;
        proof {
            assert(self.files@.take(0) =~= Seq::<SharedFile>::empty());
            assert(crate::message::strings_view(r@) =~= nonempty_names(self.files@.take(0)));
        }
        while i < self.files.len()
            invariant
                0 <= i <= self.files@.len(),
                crate::message::strings_view(r@) == nonempty_names(self.files@.take(i as int)),
                forall|k: int|
                    0 <= k < r@.len() ==> advertised_ok(self.files@, (#[trigger] r@[k])@),
            decreases self.files@.len() - i,
        {
            let ghost views_entry = crate::message::strings_view(r@);
            proof {
                assert(self.files@.take(i + 1).drop_last() =~= self.files@.take(i as int));
                assert(self.files@.take(i + 1).last() == self.files@[i as int]);
            }
            if !self.files[i].is_empty_file() {
                let name = self.files[i].file_name();
                proof {
                    assert(0 <= i < self.files@.len() && self.files@[i as int].file_name@
                        == name@ && self.files@[i as int].file_size > 0);
                    assert(advertised_ok(self.files@, name@));
                }
                r.push(name);
                proof {
                    assert(crate::message::strings_view(r@) =~= views_entry.push(name@));
                }
            }
            i = i + 1;
        }
        proof {
            assert(self.files@.take(self.files@.len() as int) =~= self.files@);
        }
        r
    }

    /// A peer listed its files: exactly the names we track but have not
    /// finished are asked for again, and exactly the unknown names are
    /// adopted, deduplicated, while slots are free. The caller creates an
    /// empty file on disk for each name to adopt and then registers the
    /// placeholder.
    #[verifier::loop_isolation(false)]
    pub fn check_files_from_peer(&self, files: &Vec<String>) -> (r: (Vec<String>, Vec<String>))
        requires
            self.wf(),
        ensures
            crate::message::strings_view(r.0@) == ask_plan(
                self.files@,
                crate::message::strings_view(files@),
            ),
            crate::message::strings_view(r.1@) == adopt_plan(
                self.files@,
                crate::message::strings_view(files@),
                MAX_FILES_TO_SHARE_AT_ONCE as int,
            ),
            forall|k: int|
                0 <= k < r.0@.len() ==> files_have(self.files@, (#[trigger] r.0@[k])@),
            forall|k: int|
                0 <= k < r.1@.len() ==> !files_have(self.files@, (#[trigger] r.1@[k])@),
            r.1@.len() + self.files@.len() <= MAX_FILES_TO_SHARE_AT_ONCE || r.1@.len() == 0,
    {
        let ghost fsv = crate::message::strings_view(files@);
        let mut ask: Vec<String> = Vec::new();
        let mut adopt: Vec<String> = Vec::new();
        let mut i: usize = 0;
        proof {
            assert(fsv.take(0) =~= Seq::<Seq<char>>::empty());
            assert(crate::message::strings_view(ask@) =~= ask_plan(self.files@, fsv.take(0)));
            assert(crate::message::strings_view(adopt@) =~= adopt_plan(
                self.files@,
                fsv.take(0),
                MAX_FILES_TO_SHARE_AT_ONCE as int,
            ));
        }
        while i < files.len()
            invariant
                0 <= i <= files@.len(),
                self.wf(),
                fsv == crate::message::strings_view(files@),
                fsv.len() == files@.len(),
                crate::message::strings_view(ask@) == ask_plan(self.files@, fsv.take(i as int)),
                crate::message::strings_view(adopt@) == adopt_plan(
                    self.files@,
                    fsv.take(i as int),
                    MAX_FILES_TO_SHARE_AT_ONCE as int,
                ),
                forall|k: int|
                    0 <= k < ask@.len() ==> files_have(self.files@, (#[trigger] ask@[k])@),
                forall|k: int|
                    0 <= k < adopt@.len() ==> !files_have(self.files@, (#[trigger] adopt@[k])@),
                adopt@.len() + self.files@.len() <= MAX_FILES_TO_SHARE_AT_ONCE || adopt@.len()
                    == 0,
            decreases files@.len() - i,
        {
            let ghost askv_entry = crate::message::strings_view(ask@);
            let ghost adoptv_entry = crate::message::strings_view(adopt@);
            proof {
                assert(fsv.take(i + 1).drop_last() =~= fsv.take(i as int));
                assert(fsv.take(i + 1).last() == fsv[i as int]);
                assert(fsv[i as int] == files@[i as int]@);
            }
            let name = &files[i];
            match self.find_file(name) {
                Some(j) => {
                    if !self.files[j].is_finished() {
                        let ghost jj = j as int;
                        ask.push(name.clone());
                        proof {
                            assert(ask@[ask@.len() - 1]@ == self.files@[jj].file_name@);
                            assert(crate::message::strings_view(ask@) =~= askv_entry.push(
                                fsv[i as int],
                            ));
                        }
                    } else {
                        proof {
                            let jj = j as int;
                            assert forall|w: int|
                                0 <= w < self.files@.len() && (#[trigger] self.files@[w]).file_name@
                                    == fsv[i as int] implies self.files@[w].file_completion
                                == 100 by {
                                if w != jj {
                                    assert(self.files@[w].file_name@
                                        != self.files@[jj].file_name@);
                                }
                            }
                        }
                    }
                    proof {
                        assert(files_have(self.files@, fsv[i as int]));
                    }
                },
                None => {
                    if adopt.len() + self.files.len() < MAX_FILES_TO_SHARE_AT_ONCE {
                        let mut dup = false;
                        let mut a: usize = 0;
                        while a < adopt.len()
                            invariant
                                0 <= a <= adopt@.len(),
                                dup ==> adoptv_entry.contains(fsv[i as int]),
                                !dup ==> forall|k: int|
                                    0 <= k < a ==> (#[trigger] adopt@[k])@ != files@[i as int]@,
                                adoptv_entry == crate::message::strings_view(adopt@),
                                fsv[i as int] == files@[i as int]@,
                            decreases adopt@.len() - a,
                        {
                            if adopt[a] == *name {
                                dup = true;
                                proof {
                                    assert(adoptv_entry[a as int] == fsv[i as int]);
                                }
                            }
                            a = a + 1;
                        }
                        proof {
                            if !dup {
                                if adoptv_entry.contains(fsv[i as int]) {
                                    let w = choose|w: int|
                                        0 <= w < adoptv_entry.len() && adoptv_entry[w]
                                            == fsv[i as int];
                                    assert(adopt@[w]@ == files@[i as int]@);
                                }
                            }
                            assert(dup == adoptv_entry.contains(fsv[i as int]));
                        }
                        if !dup {
                            adopt.push(name.clone());
                            proof {
                                assert(crate::message::strings_view(adopt@)
                                    =~= adoptv_entry.push(fsv[i as int]));
                            }
                        }
                    }
                },
            }
            i = i + 1;
        }
        proof {
            assert(fsv.take(fsv.len() as int) =~= fsv);
        }
        (ask, adopt)
    }

    /// Adopts an empty placeholder for a file a peer advertised, after the
    /// caller created its backing file on disk: this happens exactly when
    /// the name is new and a slot below the cap is free.
    pub fn register_placeholder(&mut self, name: String, now: u64) -> (r: bool)
        requires
            old(self).wf(),
        ensures
            final(self).wf(),
            r <==> (!files_have(old(self).files@, name@) && old(self).files@.len()
                < MAX_FILES_TO_SHARE_AT_ONCE),
            !r ==> *final(self) == *old(self),
            r ==> {
                &&& final(self).files@.len() == old(self).files@.len() + 1
                &&& forall|k: int|
                    0 <= k < old(self).files@.len() ==> #[trigger] final(self).files@[k] == old(self).files@[k]
                &&& final(self).files@.last().file_name@ == name@
                &&& final(self).files@.last().file_size == 0
                &&& final(self).files@.last().download_metadata is None
                &&& final(self).files@.last().file_completion == 0
                &&& final(self).files@.last().chunks_requested@.len() == 0
                &&& final(self).files@.last().peers_with_available_chunks@.len() == 0
                &&& final(self).processing_metadata_for_peers == old(self).processing_metadata_for_peers
            },
    {
        if self.find_file(&name).is_some() {
            return false;
        }
        if self.files.len() >= MAX_FILES_TO_SHARE_AT_ONCE {
            return false;
        }
        let ghost before = self.files@;
        let sf = SharedFile::create_placeholder(name, now);
        self.files.push(sf);
        proof {
            assert forall|a: int, b: int|
                0 <= a < b < self.files@.len() implies (#[trigger] self.files@[a]).file_name@
                != (#[trigger] self.files@[b]).file_name@ by {
                if b == self.files@.len() - 1 {
                    assert(self.files@[a] == before[a]);
                    if before[a].file_name@ == self.files@[b].file_name@ {
                        assert(files_have(before, self.files@[b].file_name@));
                    }
                }
            }
        }
        true
    }

    /// Answers a manifest request from a peer: a held manifest goes out at
    /// once; otherwise the peer is queued for the result, and hashing
    /// starts exactly when no request for the same file is already being
    /// hashed. Duplicate requests from one peer are coalesced.
    pub fn get_metadata_for_peer(&mut self, file_name: &String, peer: PeerAddress) -> (r:
        MetadataRequest)
        requires
            old(self).wf(),
        ensures
            final(self).wf(),
            final(self).files == old(self).files,
            !files_have(old(self).files@, file_name@) ==> r is NotAvailable && *final(self)
                == *old(self),
            files_have(old(self).files@, file_name@) ==> ({
                let f = the_file(old(self).files@, file_name@);
                &&& (f.file_size == 0 ==> r is NotAvailable && *final(self) == *old(self))
                &&& ((f.file_size > 0 && f.download_metadata is Some) ==> (
                r matches MetadataRequest::SendNow(size, dm) && size == f.file_size && dm@
                    == f.download_metadata->Some_0@ && *final(self) == *old(self)))
                &&& ((f.file_size > 0 && f.download_metadata is None) ==> {
                    let q0 = old(self).processing_metadata_for_peers@;
                    let q1 = final(self).processing_metadata_for_peers@;
                    &&& queued(q1, file_name@, peer)
                    &&& (r is StartHashing <==> !queue_has(q0, file_name@))
                    &&& (r is AlreadyHashing <==> queue_has(q0, file_name@))
                    &&& (r is StartHashing ==> q1.len() == q0.len() + 1 && (forall|k: int|
                        0 <= k < q0.len() ==> #[trigger] q1[k] == q0[k]) && q1.last().0@
                        == file_name@ && q1.last().1@ == seq![peer])
                    &&& (r is AlreadyHashing ==> q1.len() == q0.len() && (forall|k: int|
                        0 <= k < q0.len() ==> (#[trigger] q1[k]).0@ == q0[k].0@ && (q0[k].0@
                            != file_name@ ==> q1[k] == q0[k])))
                })
            }),
    {
        let idx = match self.find_file(file_name) {
            None => {
                return MetadataRequest::NotAvailable;
            },
            Some(i) => i,
        };
        proof {
            let jj = choose|j: int|
                0 <= j < self.files@.len() && self.files@[j].file_name@ == file_name@;
            if jj != idx {
                assert(self.files@[jj].file_name@ != self.files@[idx as int].file_name@);
            }
            assert(the_file(self.files@, file_name@) == self.files@[idx as int]);
        }
        if self.files[idx].is_empty_file() {
            return MetadataRequest::NotAvailable;
        }
        let held = self.files[idx].generate_metadata_for_share();
        match held {
            Some(dm) => {
                let size = self.files[idx].file_size();
                MetadataRequest::SendNow(size, dm)
            },
            None => {
                match self.find_queue(file_name) {
                    Some(at) => {
                        let ghost q0 = self.processing_metadata_for_peers@;
                        let mut tmp: (String, Vec<PeerAddress>) = (String::new(), Vec::new());
                        self.processing_metadata_for_peers.set_and_swap(at, &mut tmp);
                        proof {
                            assert(q0 == old(self).processing_metadata_for_peers@);
                            assert(tmp == q0[at as int]);
                            assert(old(self).wf());
                            assert(crate::peer::peers_unique(
                                (old(self).processing_metadata_for_peers@[at as int]).1@,
                            )) by {
                                assert(0 <= at < old(self).processing_metadata_for_peers@.len());
                            }
                            assert(crate::peer::peers_unique(tmp.1@));
                        }
                        let (nm, mut peers) = tmp;
                        crate::peer::peers_insert(&mut peers, peer);
                        let ghost peersv = peers@;
                        self.processing_metadata_for_peers.set(at, (nm, peers));
                        proof {
                            let q1 = self.processing_metadata_for_peers@;
                            assert(q1[at as int].0@ == q0[at as int].0@);
                            assert(crate::peer::peers_contain(peersv, peer));
                            assert(q1[at as int].1@ == peersv);
                            assert(q1[at as int].0@ == file_name@ && crate::peer::peers_contain(
                                q1[at as int].1@,
                                peer,
                            ));
                            assert(queued(q1, file_name@, peer));
                            assert forall|a: int, b: int|
                                0 <= a < b < q1.len() implies (#[trigger] q1[a]).0@
                                != (#[trigger] q1[b]).0@ by {
                                if a != at {
                                    assert(q1[a] == q0[a]);
                                }
                                if b != at {
                                    assert(q1[b] == q0[b]);
                                }
                            }
                        }
                        MetadataRequest::AlreadyHashing
                    },
                    None => {
                        let ghost q0 = self.processing_metadata_for_peers@;
                        let mut peers: Vec<PeerAddress> = Vec::new();
                        peers.push(peer);
                        proof {
                            assert(peers@ =~= seq![peer]);
                        }
                        self.processing_metadata_for_peers.push((file_name.clone(), peers));
                        proof {
                            let q1 = self.processing_metadata_for_peers@;
                            assert(q1.last().0@ == file_name@);
                            assert(crate::peer::peers_contain(q1.last().1@, peer)) by {
                                assert(q1.last().1@[0] == peer);
                            }
                            assert(queued(q1, file_name@, peer)) by {
                                assert(q1[q1.len() - 1].0@ == file_name@
                                    && crate::peer::peers_contain(q1[q1.len() - 1].1@, peer));
                            }
                            assert forall|a: int, b: int|
                                0 <= a < b < q1.len() implies (#[trigger] q1[a]).0@
                                != (#[trigger] q1[b]).0@ by {
                                if b == q1.len() - 1 {
                                    assert(q1[a] == q0[a]);
                                    if q0[a].0@ == file_name@ {
                                        assert(queue_has(q0, file_name@));
                                    }
                                }
                            }
                        }
                        MetadataRequest::StartHashing
                    },
                }
            },
        }
    }

    /// Background hashing finished: hands back exactly the peers that were
    /// waiting for this file's manifest and forgets the queue entry; a
    /// name nobody waits for yields nothing.
    pub fn metadata_ready(&mut self, file_name: &String) -> (r: Vec<PeerAddress>)
        requires
            old(self).wf(),
        ensures
            final(self).wf(),
            final(self).files == old(self).files,
            !queue_has(old(self).processing_metadata_for_peers@, file_name@) ==> r@.len() == 0
                && *final(self) == *old(self),
            queue_has(old(self).processing_metadata_for_peers@, file_name@) ==> exists|j: int|
                0 <= j < old(self).processing_metadata_for_peers@.len() && (#[trigger] old(self).processing_metadata_for_peers@[j]).0@ == file_name@ && r@ == old(self).processing_metadata_for_peers@[j].1@ && final(self).processing_metadata_for_peers@ == old(self).processing_metadata_for_peers@.remove(j),
    {
        match self.find_queue(file_name) {
            Some(at) => {
                let ghost q0 = self.processing_metadata_for_peers@;
                let entry = self.processing_metadata_for_peers.remove(at);
                proof {
                    let q1 = self.processing_metadata_for_peers@;
                    assert(q0 == old(self).processing_metadata_for_peers@);
                    assert(q0[at as int].0@ == file_name@ && entry.1@ == q0[at as int].1@ && q1
                        == q0.remove(at as int));
                    assert forall|a: int, b: int|
                        0 <= a < b < q1.len() implies (#[trigger] q1[a]).0@
                        != (#[trigger] q1[b]).0@ by {
                        if a < at {
                            assert(q1[a] == q0[a]);
                        } else {
                            assert(q1[a] == q0[a + 1]);
                        }
                        if b < at {
                            assert(q1[b] == q0[b]);
                        } else {
                            assert(q1[b] == q0[b + 1]);
                        }
                    }
                }
                entry.1
            },
            None => Vec::new(),
        }
    }

    /// A peer vanished: every record forgets it as a chunk source, and
    /// nothing else about any record changes.
    pub fn peer_not_connected(&mut self, peer: PeerAddress)
        requires
            old(self).wf(),
        ensures
            final(self).wf(),
            final(self).files@.len() == old(self).files@.len(),
            final(self).processing_metadata_for_peers == old(self).processing_metadata_for_peers,
            forall|k: int|
                0 <= k < final(self).files@.len() ==> {
                    let f0 = #[trigger] old(self).files@[k];
                    let f1 = final(self).files@[k];
                    &&& f1.file_name == f0.file_name
                    &&& f1.download_metadata == f0.download_metadata
                    &&& f1.file_size == f0.file_size
                    &&& f1.file_completion == f0.file_completion
                    &&& f1.chunks_requested == f0.chunks_requested
                    &&& f1.status == f0.status
                    &&& f1.status_last_updated_time == f0.status_last_updated_time
                    &&& crate::shared_file::table_view(f1.peers_with_available_chunks@)
                        == crate::shared_file::table_view(f0.peers_with_available_chunks@).filter(
                        |e: (PeerAddress, Seq<usize>)| e.0 != peer,
                    )
                },
    {
        let mut i: usize = 0;
        let ghost files0 = self.files@;
        while i < self.files.len()
            invariant
                0 <= i <= self.files@.len(),
                self.files@.len() == files0.len(),
                self.wf(),
                self.processing_metadata_for_peers == old(self).processing_metadata_for_peers,
                files0 == old(self).files@,
                forall|k: int| i <= k < files0.len() ==> #[trigger] self.files@[k] == files0[k],
                forall|k: int|
                    0 <= k < i ==> {
                        let f0 = #[trigger] files0[k];
                        let f1 = self.files@[k];
                        &&& f1.file_name == f0.file_name
                        &&& f1.download_metadata == f0.download_metadata
                        &&& f1.file_size == f0.file_size
                        &&& f1.file_completion == f0.file_completion
                        &&& f1.chunks_requested == f0.chunks_requested
                        &&& f1.status == f0.status
                        &&& f1.status_last_updated_time == f0.status_last_updated_time
                        &&& crate::shared_file::table_view(f1.peers_with_available_chunks@)
                            == crate::shared_file::table_view(
                            f0.peers_with_available_chunks@,
                        ).filter(|e: (PeerAddress, Seq<usize>)| e.0 != peer)
                    },
            decreases self.files@.len() - i,
        {
            let ghost pre = self.files@;
            let mut sf = SharedFile::create_placeholder(String::new(), 0);
            self.files.set_and_swap(i, &mut sf);
            sf.remove_source_peer(peer);
            self.files.set(i, sf);
            proof {
                assert(pre[i as int] == files0[i as int]);
                assert forall|k: int|
                    0 <= k < self.files@.len() && k != i implies #[trigger] self.files@[k]
                    == pre[k] by {
                }
            }
            i = i + 1;
        }
    }
}

} // verus!

verus! {

/// What happened to a manifest that a peer sent.
pub enum ReceivedMetadataOutcome {
    /// An empty placeholder took the manifest; the backing file must be
    /// extended to the given size and the returned trailer appended.
    Installed(u64, Vec<u8>),
    /// Our manifest matched the peer's; the peer was recorded as a source.
    Matched,
    /// The manifest was dropped, with a short reason.
    Ignored(String),
}

impl Manager {
    /// Handles a manifest a peer sent for a named file, as the event
    /// handler of the storage loop does: an unknown name is ignored; an
    /// empty placeholder adopts a fitting manifest; a non-empty file keeps
    /// its own manifest, recording the peer as a source exactly when the
    /// two match; everything else is dropped unchanged.
    pub fn received_metadata(
        &mut self,
        file_name: &String,
        peer: PeerAddress,
        file_size: u64,
        dm: &DownloadMetadata,
        now: u64,
    ) -> (r: ReceivedMetadataOutcome)
        requires
            old(self).wf(),
        ensures
            final(self).wf(),
            final(self).files@.len() == old(self).files@.len(),
            final(self).processing_metadata_for_peers == old(self).processing_metadata_for_peers,
            !files_have(old(self).files@, file_name@) ==> r is Ignored && *final(self) == *old(self),
            files_have(old(self).files@, file_name@) ==> ({
                let j = the_index(old(self).files@, file_name@);
                let f = old(self).files@[j];
                let post = final(self).files@[j];
                &&& forall|k: int|
                    0 <= k < old(self).files@.len() && k != j ==> #[trigger] final(self).files@[k]
                        == old(self).files@[k]
                &&& ((f.file_size > 0 && f.download_metadata is None) ==> r is Ignored && post
                    == f)
                &&& ((f.file_size > 0 && f.download_metadata is Some && f.file_size != file_size)
                    ==> r is Ignored && post == f)
                &&& ((f.file_size > 0 && f.download_metadata is Some && f.file_size == file_size)
                    ==> {
                    &&& (crate::shared_file::metadata_matches(
                        f.download_metadata->Some_0@,
                        dm@,
                    ) ==> (r is Matched && crate::shared_file::table_view(
                        post.peers_with_available_chunks@,
                    ) == crate::shared_file::table_view(f.peers_with_available_chunks@).filter(
                        |e: (PeerAddress, Seq<usize>)| e.0 != peer,
                    ).push(
                        (
                            peer,
                            crate::shared_file::offer_seq(
                                dm.file_chunks@,
                                f.download_metadata->Some_0.file_chunks@,
                                dm.file_chunks@.len() as int,
                            ),
                        ),
                    ) && post.download_metadata == f.download_metadata && post.file_size
                        == f.file_size && post.file_completion == f.file_completion
                        && post.chunks_requested == f.chunks_requested))
                    &&& (!crate::shared_file::metadata_matches(
                        f.download_metadata->Some_0@,
                        dm@,
                    ) ==> r is Ignored && post == f)
                })
                &&& (f.file_size == 0 ==> {
                    &&& ((file_size > 0 && crate::chunks::chunks_wf(dm.file_chunks@, file_size))
                        ==> (r matches ReceivedMetadataOutcome::Installed(size, trailer) && size
                        == file_size && post.file_size == file_size && (post.download_metadata
                        matches Some(d) && d.chunks_downloaded == 0 && d.file_chunks@.len()
                        == dm.file_chunks@.len() && trailer@ == crate::shared_file::trailer_bytes(
                        d@,
                        file_size,
                    ))))
                    &&& (!(file_size > 0 && crate::chunks::chunks_wf(dm.file_chunks@, file_size))
                        ==> r is Ignored && post == f)
                })
            }),
    {
        let idx = match self.find_file(file_name) {
            None => {
                return ReceivedMetadataOutcome::Ignored(
                    String::from_str("no such file is shared"),
                );
            },
            Some(i) => i,
        };
        proof {
            lemma_the_index(self.files@, file_name@, idx as int);
        }
        let ghost files0 = self.files@;
        let mut sf = SharedFile::create_placeholder(String::new(), now);
        self.files.set_and_swap(idx, &mut sf);
        proof {
            assert(sf == files0[idx as int]);
        }
        let outcome: ReceivedMetadataOutcome;
        if !sf.is_empty_file() {
            if !sf.has_download_metadata() {
                outcome = ReceivedMetadataOutcome::Ignored(
                    String::from_str("the file is already complete"),
                );
            } else if sf.file_size() != file_size {
                outcome = ReceivedMetadataOutcome::Ignored(
                    String::from_str("the file size differs"),
                );
            } else {
                match sf.compare_download_metadata(peer, dm) {
                    None => {
                        outcome = ReceivedMetadataOutcome::Matched;
                    },
                    Some(reason) => {
                        outcome = ReceivedMetadataOutcome::Ignored(reason);
                    },
                }
            }
        } else {
            match sf.insert_download_metadata(peer, file_size, dm) {
                Ok(trailer) => {
                    outcome = ReceivedMetadataOutcome::Installed(file_size, trailer);
                },
                Err(_) => {
                    outcome = ReceivedMetadataOutcome::Ignored(
                        String::from_str("the manifest does not fit the file size"),
                    );
                },
            }
        }
        self.files.set(idx, sf);
        proof {
            lemma_same_names_wf(files0, self.files@);
        }
        outcome
    }

    /// Plans the disk reads answering a chunk request for a named file:
    /// exactly the in-range requests, in order; serving moves an idle file
    /// to the seeding status. An unknown name yields nothing.
    pub fn chunk_read_plan(&mut self, file_name: &String, chunks: &Vec<(usize, u64)>, now: u64) -> (r:
        Option<Vec<(usize, u64, u64)>>)
        requires
            old(self).wf(),
        ensures
            final(self).wf(),
            final(self).files@.len() == old(self).files@.len(),
            final(self).processing_metadata_for_peers == old(self).processing_metadata_for_peers,
            r is Some <==> files_have(old(self).files@, file_name@),
            !files_have(old(self).files@, file_name@) ==> *final(self) == *old(self),
            files_have(old(self).files@, file_name@) ==> ({
                let j = the_index(old(self).files@, file_name@);
                let f = old(self).files@[j];
                let post = final(self).files@[j];
                &&& forall|k: int|
                    0 <= k < old(self).files@.len() && k != j ==> #[trigger] final(self).files@[k]
                        == old(self).files@[k]
                &&& (r matches Some(plan) && plan@ == crate::shared_file::read_plan(
                    chunks@,
                    f.file_size,
                ))
                &&& post.status == (if f.status == crate::shared_file::FileStatus::Idle {
                    crate::shared_file::FileStatus::Seeding
                } else {
                    f.status
                })
                &&& post.status_last_updated_time == now
                &&& post.download_metadata == f.download_metadata
                &&& post.file_size == f.file_size
                &&& post.file_completion == f.file_completion
                &&& post.chunks_requested == f.chunks_requested
                &&& post.peers_with_available_chunks == f.peers_with_available_chunks
            }),
    {
        let idx = match self.find_file(file_name) {
            None => {
                return None;
            },
            Some(i) => i,
        };
        proof {
            lemma_the_index(self.files@, file_name@, idx as int);
        }
        let ghost files0 = self.files@;
        let mut sf = SharedFile::create_placeholder(String::new(), now);
        self.files.set_and_swap(idx, &mut sf);
        proof {
            assert(sf == files0[idx as int]);
        }
        let plan = sf.get_file_chunks(chunks, now);
        self.files.set(idx, sf);
        proof {
            lemma_same_names_wf(files0, self.files@);
        }
        Some(plan)
    }

    /// Verifies and accepts received chunks for a named file: every valid
    /// received pair is applied, per the append model of the record. An
    /// unknown name yields nothing.
    pub fn received_file_chunks(
        &mut self,
        file_name: &String,
        chunks: &Vec<(usize, Vec<u8>)>,
        now: u64,
    ) -> (r: Option<AppendOutcome>)
        requires
            old(self).wf(),
        ensures
            final(self).wf(),
            final(self).files@.len() == old(self).files@.len(),
            final(self).processing_metadata_for_peers == old(self).processing_metadata_for_peers,
            r is Some <==> files_have(old(self).files@, file_name@),
            !files_have(old(self).files@, file_name@) ==> *final(self) == *old(self),
            files_have(old(self).files@, file_name@) ==> ({
                let j = the_index(old(self).files@, file_name@);
                let f = old(self).files@[j];
                let post = final(self).files@[j];
                &&& forall|k: int|
                    0 <= k < old(self).files@.len() && k != j ==> #[trigger] final(self).files@[k]
                        == old(self).files@[k]
                &&& (r matches Some(out) && {
                    &&& (f.download_metadata is None ==> post == f && out.writes@.len() == 0
                        && out.trailer is None && !out.finished)
                    &&& (f.download_metadata matches Some(dm0) ==> ({
                        let outcome = crate::shared_file::spec_append(
                            dm0.file_chunks@,
                            crate::message::chunk_datas_view(chunks@),
                        );
                        &&& crate::shared_file::writes_view(out.writes@) == outcome.1
                        &&& out.finished == (crate::chunks::count_downloaded(outcome.0)
                            == outcome.0.len())
                        &&& (!out.finished ==> (post.download_metadata matches Some(d)
                            && d.file_chunks@ == outcome.0))
                        &&& (out.finished ==> post.download_metadata is None
                            && post.file_completion == 100)
                        &&& (out.writes@.len() == 0 ==> post == f)
                    }))
                })
            }),
    {
        let idx = match self.find_file(file_name) {
            None => {
                return None;
            },
            Some(i) => i,
        };
        proof {
            lemma_the_index(self.files@, file_name@, idx as int);
        }
        let ghost files0 = self.files@;
        let mut sf = SharedFile::create_placeholder(String::new(), now);
        self.files.set_and_swap(idx, &mut sf);
        proof {
            assert(sf == files0[idx as int]);
        }
        let out = sf.append_chunks_to_file(chunks, now);
        self.files.set(idx, sf);
        proof {
            lemma_same_names_wf(files0, self.files@);
        }
        Some(out)
    }

    /// The download pump: runs the scheduler of every unfinished file and
    /// collects the commands the node should carry out. Every scheduled
    /// batch becomes one chunk-request command per chosen peer; a batch
    /// from a single peer additionally asks other peers for the file, and
    /// a file for which nothing could be scheduled asks beyond its current
    /// sources. Finished files contribute nothing and stay untouched.
    #[verifier::loop_isolation(false)]
    #[verifier::rlimit(100)]
    pub fn process_downloads(&mut self, now: u64) -> (r: Vec<StorageMessage>)
        requires
            old(self).wf(),
        ensures
            final(self).wf(),
            final(self).files@.len() == old(self).files@.len(),
            final(self).processing_metadata_for_peers == old(self).processing_metadata_for_peers,
            forall|k: int|
                0 <= k < final(self).files@.len() ==> (#[trigger] final(self).files@[k]).file_name@
                    == old(self).files@[k].file_name@,
            // finished files are untouched, unfinished ones take one
            // scheduling pass
            forall|k: int|
                0 <= k < old(self).files@.len() && (#[trigger] old(self).files@[k]).file_completion
                    == 100 ==> final(self).files@[k] == old(self).files@[k],
            forall|k: int|
                0 <= k < old(self).files@.len() && (#[trigger] old(self).files@[k]).file_completion
                    != 100 ==> SharedFile::scheduler_step(
                    old(self).files@[k],
                    final(self).files@[k],
                    now,
                ),
            // every command names an unfinished file
            forall|k: int|
                0 <= k < r@.len() ==> match #[trigger] r@[k] {
                    StorageMessage::RequestFileChunks(_, n, _) => names_unfinished(
                        old(self).files@,
                        n@,
                    ),
                    StorageMessage::AskPeersForFileExcept(n, _) => names_unfinished(
                        old(self).files@,
                        n@,
                    ),
                    _ => false,
                },
            // a file whose pass scheduled chunks has a request command, and
            // one whose pass could schedule nothing has a broaden plea
            forall|f: int|
                0 <= f < old(self).files@.len() && (#[trigger] old(self).files@[f]).file_completion
                    != 100 ==> ({
                    let pre = old(self).files@[f];
                    let post = final(self).files@[f];
                    &&& (post.chunks_requested@.len() > crate::shared_file::live_requests(
                        pre.chunks_requested@,
                        now,
                    ).len() ==> exists|k: int|
                        0 <= k < r@.len() && ((#[trigger] r@[k]) matches
                            StorageMessage::RequestFileChunks(p2, n2, ch2) && n2@
                            == pre.file_name@))
                    &&& ((pre.download_metadata is Some && (crate::shared_file::live_requests(
                        pre.chunks_requested@,
                        now,
                    ).len() >= R_MAX || (post.chunks_requested@
                        == crate::shared_file::live_requests(pre.chunks_requested@, now)
                        && R_MAX - crate::shared_file::live_requests(
                        pre.chunks_requested@,
                        now,
                    ).len() >= crate::shared_file::nonempty_peers(
                        crate::shared_file::table_view(pre.peers_with_available_chunks@),
                    ).len() && post.no_offer_schedulable()))) ==> exists|k: int|
                        0 <= k < r@.len() && ((#[trigger] r@[k]) matches
                            StorageMessage::AskPeersForFileExcept(n2, ps2) && n2@
                            == pre.file_name@))
                }),
    {
        let mut out: Vec<StorageMessage> = Vec::new();
        let mut i: usize = 0;
        let ghost files0 = self.files@;
        while i < self.files.len()
            invariant
                0 <= i <= self.files@.len(),
                self.files@.len() == files0.len(),
                self.wf(),
                self.processing_metadata_for_peers == old(self).processing_metadata_for_peers,
                forall|k: int|
                    0 <= k < self.files@.len() ==> (#[trigger] self.files@[k]).file_name@
                        == files0[k].file_name@,
                forall|k: int| i <= k < files0.len() ==> #[trigger] self.files@[k] == files0[k],
                forall|k: int|
                    0 <= k < i && (#[trigger] files0[k]).file_completion == 100
                        ==> self.files@[k] == files0[k],
                forall|k: int|
                    0 <= k < i && (#[trigger] files0[k]).file_completion != 100
                        ==> SharedFile::scheduler_step(files0[k], self.files@[k], now),
                forall|k: int|
                    0 <= k < out@.len() ==> match #[trigger] out@[k] {
                        StorageMessage::RequestFileChunks(_, n, _) => names_unfinished(
                            files0,
                            n@,
                        ),
                        StorageMessage::AskPeersForFileExcept(n, _) => names_unfinished(
                            files0,
                            n@,
                        ),
                        _ => false,
                    },
                forall|f: int|
                    0 <= f < i && (#[trigger] files0[f]).file_completion != 100 ==> ({
                        let pre = files0[f];
                        let post = self.files@[f];
                        &&& (post.chunks_requested@.len() > crate::shared_file::live_requests(
                            pre.chunks_requested@,
                            now,
                        ).len() ==> exists|k: int|
                            0 <= k < out@.len() && ((#[trigger] out@[k]) matches
                                StorageMessage::RequestFileChunks(p2, n2, ch2) && n2@
                                == pre.file_name@))
                        &&& ((pre.download_metadata is Some && (
                        crate::shared_file::live_requests(pre.chunks_requested@, now).len()
                            >= R_MAX || (post.chunks_requested@
                            == crate::shared_file::live_requests(pre.chunks_requested@, now)
                            && R_MAX - crate::shared_file::live_requests(
                            pre.chunks_requested@,
                            now,
                        ).len() >= crate::shared_file::nonempty_peers(
                            crate::shared_file::table_view(pre.peers_with_available_chunks@),
                        ).len() && post.no_offer_schedulable()))) ==> exists|k: int|
                            0 <= k < out@.len() && ((#[trigger] out@[k]) matches
                                StorageMessage::AskPeersForFileExcept(n2, ps2) && n2@
                                == pre.file_name@))
                    }),
            decreases self.files@.len() - i,
        {
            let ghost pre_table = self.files@;
            let ghost out_entry = out@;
            let mut sf = SharedFile::create_placeholder(String::new(), now);
            self.files.set_and_swap(i, &mut sf);
            proof {
                assert(sf == files0[i as int]);
            }
            if !sf.is_finished() {
                let name = sf.file_name();
                proof {
                    assert(name@ == files0[i as int].file_name@);
                    assert(names_unfinished(files0, name@)) by {
                        assert(files0[i as int].file_name@ == name@
                            && files0[i as int].file_completion != 100);
                    }
                }
                match sf.get_list_of_requested_chunks(now) {
                    Some(request_map) => {
                        if request_map.len() == 1 {
                            let mut chosen: Vec<PeerAddress> = Vec::new();
                            chosen.push(request_map[0].0);
                            out.push(
                                StorageMessage::AskPeersForFileExcept(name.clone(), chosen),
                            );
                        }
                        let mut m: usize = 0;
                        let mut request_map = request_map;
                        let ghost sched_count = request_map@.len();
                        while m < request_map.len()
                            invariant
                                0 <= m <= request_map@.len(),
                                request_map@.len() == sched_count,
                                names_unfinished(files0, name@),
                                name@ == files0[i as int].file_name@,
                                out@.len() >= out_entry.len(),
                                forall|k: int|
                                    0 <= k < out_entry.len() ==> #[trigger] out@[k]
                                        == out_entry[k],
                                forall|k: int|
                                    0 <= k < out@.len() ==> match #[trigger] out@[k] {
                                        StorageMessage::RequestFileChunks(_, n, _)
                                            => names_unfinished(files0, n@),
                                        StorageMessage::AskPeersForFileExcept(n, _)
                                            => names_unfinished(files0, n@),
                                        _ => false,
                                    },
                                sched_count > 0 && m > 0 ==> exists|k: int|
                                    0 <= k < out@.len() && ((#[trigger] out@[k]) matches
                                        StorageMessage::RequestFileChunks(p2, n2, ch2) && n2@
                                        == files0[i as int].file_name@),
                            decreases request_map@.len() - m,
                        {
                            let ghost out_inner = out@;
                            let mut entry: (PeerAddress, Vec<(usize, u64)>) = (
                                crate::peer::PeerAddress { ip: 0, port: 0 },
                                Vec::new(),
                            );
                            request_map.set_and_swap(m, &mut entry);
                            out.push(
                                StorageMessage::RequestFileChunks(entry.0, name.clone(), entry.1),
                            );
                            proof {
                                assert(out@[out@.len() - 1] matches
                                    StorageMessage::RequestFileChunks(p2, n2, ch2) && n2@
                                    == files0[i as int].file_name@);
                            }
                            m = m + 1;
                        }
                        proof {
                            // a non-empty schedule grew the in-flight set,
                            // and then a request command was pushed; an
                            // empty schedule left it at the cleaned size
                            if request_map@.len() > 0 {
                                assert(exists|k: int|
                                    0 <= k < out@.len() && ((#[trigger] out@[k]) matches
                                        StorageMessage::RequestFileChunks(p2, n2, ch2) && n2@
                                        == files0[i as int].file_name@));
                            }
                        }
                    },
                    None => {
                        out.push(
                            StorageMessage::AskPeersForFileExcept(
                                name.clone(),
                                sf.get_source_peers(),
                            ),
                        );
                        proof {
                            assert(out@[out@.len() - 1] matches
                                StorageMessage::AskPeersForFileExcept(n2, ps2) && n2@
                                == files0[i as int].file_name@);
                        }
                    },
                }
            }
            self.files.set(i, sf);
            proof {
                assert forall|k: int|
                    0 <= k < self.files@.len() && k != i implies #[trigger] self.files@[k]
                    == pre_table[k] by {
                }
                assert forall|f: int|
                    0 <= f < i && (#[trigger] files0[f]).file_completion != 100 implies ({
                    let pre = files0[f];
                    let post = self.files@[f];
                    &&& (post.chunks_requested@.len() > crate::shared_file::live_requests(
                        pre.chunks_requested@,
                        now,
                    ).len() ==> exists|k: int|
                        0 <= k < out@.len() && ((#[trigger] out@[k]) matches
                            StorageMessage::RequestFileChunks(p2, n2, ch2) && n2@
                            == pre.file_name@))
                    &&& ((pre.download_metadata is Some && (crate::shared_file::live_requests(
                        pre.chunks_requested@,
                        now,
                    ).len() >= R_MAX || (post.chunks_requested@
                        == crate::shared_file::live_requests(pre.chunks_requested@, now)
                        && R_MAX - crate::shared_file::live_requests(
                        pre.chunks_requested@,
                        now,
                    ).len() >= crate::shared_file::nonempty_peers(
                        crate::shared_file::table_view(pre.peers_with_available_chunks@),
                    ).len() && post.no_offer_schedulable()))) ==> exists|k: int|
                        0 <= k < out@.len() && ((#[trigger] out@[k]) matches
                            StorageMessage::AskPeersForFileExcept(n2, ps2) && n2@
                            == pre.file_name@))
                }) by {
                    let pre = files0[f];
                    let post = self.files@[f];
                    assert(post == pre_table[f]);
                    if post.chunks_requested@.len() > crate::shared_file::live_requests(
                        pre.chunks_requested@,
                        now,
                    ).len() {
                        let k = choose|k: int|
                            0 <= k < out_entry.len() && ((#[trigger] out_entry[k]) matches
                                StorageMessage::RequestFileChunks(p2, n2, ch2) && n2@
                                == pre.file_name@);
                        assert(out@[k] == out_entry[k]);
                    }
                    if pre.download_metadata is Some && (crate::shared_file::live_requests(
                        pre.chunks_requested@,
                        now,
                    ).len() >= R_MAX || (post.chunks_requested@
                        == crate::shared_file::live_requests(pre.chunks_requested@, now)
                        && R_MAX - crate::shared_file::live_requests(
                        pre.chunks_requested@,
                        now,
                    ).len() >= crate::shared_file::nonempty_peers(
                        crate::shared_file::table_view(pre.peers_with_available_chunks@),
                    ).len() && post.no_offer_schedulable())) {
                        let k = choose|k: int|
                            0 <= k < out_entry.len() && ((#[trigger] out_entry[k]) matches
                                StorageMessage::AskPeersForFileExcept(n2, ps2) && n2@
                                == pre.file_name@);
                        assert(out@[k] == out_entry[k]);
                    }
                }
            }
            i = i + 1;
        }
        out
    }
}

/// A found index of a unique name is the chosen one.
proof fn lemma_the_index(files: Seq<SharedFile>, name: Seq<char>, idx: int)
    requires
        0 <= idx < files.len(),
        files[idx].file_name@ == name,
        forall|a: int, b: int|
            0 <= a < b < files.len() ==> (#[trigger] files[a]).file_name@
                != (#[trigger] files[b]).file_name@,
    ensures
        the_index(files, name) == idx,
        the_file(files, name) == files[idx],
{
    let j = the_index(files, name);
    assert(0 <= j < files.len() && files[j].file_name@ == name);
    if j != idx {
        assert(files[j].file_name@ != files[idx].file_name@);
    }
}

/// Two file tables whose records carry the same names in the same order
/// and are each well formed make a well-formed manager table.
proof fn lemma_same_names_wf(files0: Seq<SharedFile>, files1: Seq<SharedFile>)
    requires
        files0.len() == files1.len(),
        forall|a: int, b: int|
            0 <= a < b < files0.len() ==> (#[trigger] files0[a]).file_name@
                != (#[trigger] files0[b]).file_name@,
        forall|k: int|
            0 <= k < files1.len() ==> (#[trigger] files1[k]).file_name@ == files0[k].file_name@,
    ensures
        forall|a: int, b: int|
            0 <= a < b < files1.len() ==> (#[trigger] files1[a]).file_name@
                != (#[trigger] files1[b]).file_name@,
{
}

} // verus!
