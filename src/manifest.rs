//! Manifest files and the index from weights digest to display name and size.
use crate::text::{chars_of, has_prefix, starts_with};
use vstd::prelude::*;

verus! {

/// One layer of a manifest.
pub struct ModelLayer {
    pub media_type: String,
    pub digest: String,
    pub size: u64,
}

/// The decoded content of a manifest file.
pub struct ModelManifest {
    pub layers: Vec<ModelLayer>,
}

/// A file found under the manifest directory: the components of its path, and
/// its content when that decoded as a manifest.
pub struct ManifestFile {
    pub components: Vec<String>,
    pub manifest: Option<ModelManifest>,
}

/// One entry of the digest index.
pub struct IndexEntry {
    pub digest: String,
    pub name: String,
    pub size: u64,
}

pub open spec fn str_views(v: Seq<String>) -> Seq<Seq<char>> {
    v.map_values(|s: String| s@)
}

pub open spec fn opt_view(r: Option<String>) -> Option<Seq<char>> {
    match r {
        Some(s) => Some(s@),
        None => None,
    }
}

/// The media type of the layer that holds the model weights.
pub open spec fn weights_media_type() -> Seq<char> {
    "application/vnd.ollama.image.model"@
}

/// The namespace whose models are named without a namespace.
pub open spec fn default_namespace() -> Seq<char> {
    "library"@
}

pub open spec fn digest_prefix() -> Seq<char> {
    "sha256:"@
}

/// The display name that a manifest path gives: its last four components are
/// registry, namespace, model and tag.
pub open spec fn canonical_name(c: Seq<Seq<char>>) -> Option<Seq<char>> {
    if c.len() < 4 {
        None
    } else {
        let ns = c[c.len() - 3];
        let model = c[c.len() - 2];
        let tag = c[c.len() - 1];
        if ns == default_namespace() {
            Some(model + ":"@ + tag)
        } else {
            Some(ns + "/"@ + model + ":"@ + tag)
        }
    }
}

/// A digest without its `sha256:` prefix.
pub open spec fn bare_digest(d: Seq<char>) -> Seq<char> {
    if has_prefix(d, digest_prefix()) {
        d.subrange(digest_prefix().len() as int, d.len() as int)
    } else {
        d
    }
}

/// `i` is the first layer that holds the weights.
pub open spec fn is_first_weights_layer(layers: Seq<ModelLayer>, i: int) -> bool {
    &&& 0 <= i < layers.len()
    &&& layers[i].media_type@ == weights_media_type()
    &&& forall|j: int| 0 <= j < i ==> layers[j].media_type@ != weights_media_type()
}

pub open spec fn has_weights_layer(layers: Seq<ModelLayer>) -> bool {
    exists|i: int| 0 <= i < layers.len() && layers[i].media_type@ == weights_media_type()
}

/// What a manifest file adds to the index: digest, display name and size.
pub open spec fn manifest_entry(f: ManifestFile) -> Option<(Seq<char>, Seq<char>, u64)> {
    match f.manifest {
        None => None,
        Some(m) => {
            if has_weights_layer(m.layers@) && canonical_name(str_views(f.components@)) is Some {
                let i = choose|i: int| is_first_weights_layer(m.layers@, i);
                Some((bare_digest(m.layers@[i].digest@), canonical_name(str_views(f.components@))->0, m.layers@[i].size))
            } else {
                None
            }
        }
    }
}

/// The index after one more name for `digest` is seen: a new entry, or the
/// name appended to the entry's name after ", " with the size replaced.
pub open spec fn merge_name(
    m: Map<Seq<char>, (Seq<char>, u64)>,
    digest: Seq<char>,
    name: Seq<char>,
    size: u64,
) -> Map<Seq<char>, (Seq<char>, u64)> {
    if m.contains_key(digest) {
        m.insert(digest, (m[digest].0 + ", "@ + name, size))
    } else {
        m.insert(digest, (name, size))
    }
}

/// The index that a sequence of manifest files gives, visited in order.
pub open spec fn index_of(files: Seq<ManifestFile>) -> Map<Seq<char>, (Seq<char>, u64)>
    decreases files.len(),
{
    if files.len() == 0 {
        Map::empty()
    } else {
        let m = index_of(files.drop_last());
        match manifest_entry(files.last()) {
            None => m,
            Some(e) => merge_name(m, e.0, e.1, e.2),
        }
    }
}

/// The display name of the model a manifest file stands for, from its path.
pub fn parse_manifest_path(components: &Vec<String>) -> (r: Option<String>)
    ensures
        opt_view(r) == canonical_name(str_views(components@)),
{
    let len = components.len();
    if len < 4 {
        return None;
    }
    let ns = &components[len - 3];
    let model = &components[len - 2];
    let tag = &components[len - 1];
    let library = String::from_str("library");
    let mut name: String;
    if ns.eq(&library) {
        name = model.clone();
    } else {
        name = ns.clone();
        name.append("/");
        name.append(model.as_str());
    }
    name.append(":");
    name.append(tag.as_str());
    Some(name)
}

/// The position of the first layer that holds the weights.
pub fn weights_layer(m: &ModelManifest) -> (r: Option<usize>)
    ensures
        r matches Some(i) ==> is_first_weights_layer(m.layers@, i as int),
        r is None <==> !has_weights_layer(m.layers@),
{
    let wanted = String::from_str("application/vnd.ollama.image.model");
    let mut i: usize = 0;
    while i < m.layers.len()
        invariant
            i <= m.layers.len(),
            wanted@ == weights_media_type(),
            forall|j: int| 0 <= j < i ==> m.layers@[j].media_type@ != weights_media_type(),
        decreases m.layers.len() - i,
    {
        if m.layers[i].media_type.eq(&wanted) {
            return Some(i);
        }
        i = i + 1;
    }
    None
}

/// `d` without a leading `sha256:`.
pub fn strip_digest_prefix(d: &String) -> (r: String)
    ensures
        r@ == bare_digest(d@),
{
    let cs = chars_of(d.as_str());
    let prefix = chars_of("sha256:");
    if starts_with(&cs, &prefix) {
        proof {
            reveal_strlit("sha256:");
        }
        let rest = d.as_str().substring_char(7, cs.len());
        String::from_str(rest)
    } else {
        d.clone()
    }
}

/// Digest index: one entry per weights digest.
pub struct DigestIndex {
    entries: Vec<IndexEntry>,
    contents: Ghost<Map<Seq<char>, (Seq<char>, u64)>>,
}

impl View for DigestIndex {
    type V = Map<Seq<char>, (Seq<char>, u64)>;

    closed spec fn view(&self) -> Map<Seq<char>, (Seq<char>, u64)> {
        self.contents@
    }
}

impl DigestIndex {
    /// The entries hold distinct digests and agree with the map they stand for.
    pub closed spec fn wf(&self) -> bool {
        &&& forall|i: int, j: int|
            0 <= i < j < self.entries.len() ==> self.entries@[i].digest@ != self.entries@[j].digest@
        &&& forall|i: int|
            0 <= i < self.entries.len() ==> #[trigger] self.contents@.contains_key(
                self.entries@[i].digest@,
            ) && self.contents@[self.entries@[i].digest@] == (
                self.entries@[i].name@,
                self.entries@[i].size,
            )
        &&& forall|d: Seq<char>|
            #[trigger] self.contents@.contains_key(d) ==> exists|i: int|
                0 <= i < self.entries.len() && self.entries@[i].digest@ == d
    }

    pub fn new() -> (r: DigestIndex)
        ensures
            r.wf(),
            r@ == Map::<Seq<char>, (Seq<char>, u64)>::empty(),
    {
        DigestIndex { entries: Vec::new(), contents: Ghost(Map::empty()) }
    }

    fn position(&self, digest: &String) -> (r: Option<usize>)
        requires
            self.wf(),
        ensures
            r matches Some(i) ==> i < self.entries.len() && self.entries@[i as int].digest@
                == digest@,
            r is None ==> !self@.contains_key(digest@),
    {
        let mut i: usize = 0;
        while i < self.entries.len()
            invariant
                i <= self.entries.len(),
                forall|j: int| 0 <= j < i ==> self.entries@[j].digest@ != digest@,
            decreases self.entries.len() - i,
        {
            if self.entries[i].digest.eq(digest) {
                return Some(i);
            }
            i = i + 1;
        }
        None
    }

    /// The display name and size recorded for `digest`.
    pub fn lookup(&self, digest: &String) -> (r: Option<(String, u64)>)
        requires
            self.wf(),
        ensures
            r is None <==> !self@.contains_key(digest@),
            r matches Some(e) ==> self@[digest@] == (e.0@, e.1),
    {
        match self.position(digest) {
            Some(i) => {
                assert(self.contents@.contains_key(self.entries@[i as int].digest@));
                Some((self.entries[i].name.clone(), self.entries[i].size))
            },
            None => None,
        }
    }

    /// Records one more display name for `digest`.
    pub fn add_name(&mut self, digest: String, name: String, size: u64)
        requires
            old(self).wf(),
        ensures
            final(self).wf(),
            final(self)@ == merge_name(old(self)@, digest@, name@, size),
    {
        match self.position(&digest) {
            Some(i) => {
                let mut joined = self.entries[i].name.clone();
                joined.append(", ");
                joined.append(name.as_str());
                let ghost d = digest@;
                let ghost v = (joined@, size);
                let e = IndexEntry { digest, name: joined, size };
                self.entries.set(i, e);
                self.contents = Ghost(self.contents@.insert(d, v));
                assert forall|k: int| 0 <= k < self.entries.len() implies #[trigger] self.contents@.contains_key(
                    self.entries@[k].digest@) && self.contents@[self.entries@[k].digest@] == (
                    self.entries@[k].name@, self.entries@[k].size) by {
                    if k != i {
                        assert(old(self).contents@.contains_key(old(self).entries@[k].digest@));
                        if k < i {
                        } else {
                        }
                    }
                }
                assert forall|d2: Seq<char>| #[trigger] self.contents@.contains_key(d2) implies exists|k: int|
                    0 <= k < self.entries.len() && self.entries@[k].digest@ == d2 by {
                    if d2 != d {
                        let k = choose|k: int| 0 <= k < old(self).entries.len() && old(self).entries@[k].digest@ == d2;
                        assert(self.entries@[k].digest@ == d2);
                    } else {
                        assert(self.entries@[i as int].digest@ == d2);
                    }
                }
            },
            None => {
                let ghost d = digest@;
                let ghost v = (name@, size);
                let e = IndexEntry { digest, name, size };
                self.entries.push(e);
                self.contents = Ghost(self.contents@.insert(d, v));
                assert forall|k: int| 0 <= k < old(self).entries.len() implies self.entries@[k].digest@ != d by {
                    assert(old(self).contents@.contains_key(old(self).entries@[k].digest@));
                }
                assert forall|k: int| 0 <= k < self.entries.len() implies #[trigger] self.contents@.contains_key(
                    self.entries@[k].digest@) && self.contents@[self.entries@[k].digest@] == (
                    self.entries@[k].name@, self.entries@[k].size) by {
                    if k < old(self).entries.len() {
                        assert(old(self).contents@.contains_key(old(self).entries@[k].digest@));
                    }
                }
                assert forall|d2: Seq<char>| #[trigger] self.contents@.contains_key(d2) implies exists|k: int|
                    0 <= k < self.entries.len() && self.entries@[k].digest@ == d2 by {
                    if d2 != d {
                        let k = choose|k: int| 0 <= k < old(self).entries.len() && old(self).entries@[k].digest@ == d2;
                        assert(self.entries@[k].digest@ == d2);
                    } else {
                        assert(self.entries@[self.entries.len() - 1].digest@ == d2);
                    }
                }
            },
        }
    }

    /// Adds what one manifest file contributes, if anything.
    pub fn add_manifest(&mut self, file: &ManifestFile)
        requires
            old(self).wf(),
        ensures
            final(self).wf(),
            final(self)@ == match manifest_entry(*file) {
                None => old(self)@,
                Some(e) => merge_name(old(self)@, e.0, e.1, e.2),
            },
    {
        match &file.manifest {
            None => {},
            Some(m) => {
                match weights_layer(m) {
                    None => {},
                    Some(i) => {
                        match parse_manifest_path(&file.components) {
                            None => {},
                            Some(name) => {
                                let layer = &m.layers[i];
                                let digest = strip_digest_prefix(&layer.digest);
                                proof {
                                    let k = choose|k: int| is_first_weights_layer(m.layers@, k);
                                    assert(k == i as int) by {
                                        if k < i {
                                        } else if k > i {
                                        }
                                    }
                                }
                                self.add_name(digest, name, layer.size);
                            },
                        }
                    },
                }
            },
        }
    }
}

/// Builds the digest index from the manifest files, visited in the given order.
pub fn find_model_manifests(files: &Vec<ManifestFile>) -> (r: DigestIndex)
    ensures
        r.wf(),
        r@ == index_of(files@),
{
    let mut index = DigestIndex::new();
    let mut i: usize = 0;
    while i < files.len()
        invariant
            i <= files.len(),
            index.wf(),
            index@ == index_of(files@.subrange(0, i as int)),
        decreases files.len() - i,
    {
        index.add_manifest(&files[i]);
        assert(files@.subrange(0, i + 1).drop_last() =~= files@.subrange(0, i as int));
        i = i + 1;
    }
    assert(files@.subrange(0, files.len() as int) =~= files@);
    index
}

/// Two manifest files with the same weights digest give one index entry whose
/// name is both display names joined by ", " in visit order, and whose size is
/// the one seen last.
pub proof fn lemma_shared_digest_joins_names(f1: ManifestFile, f2: ManifestFile)
    requires
        manifest_entry(f1) is Some,
        manifest_entry(f2) is Some,
        (manifest_entry(f1)->0).0 == (manifest_entry(f2)->0).0,
    ensures
        ({
            let (d, n1, _s1) = manifest_entry(f1)->0;
            let (_d, n2, s2) = manifest_entry(f2)->0;
            index_of(seq![f1, f2]) == map![d => (n1 + ", "@ + n2, s2)]
        }),
{
    let s = seq![f1, f2];
    assert(s.drop_last() =~= seq![f1]);
    assert(seq![f1].drop_last() =~= Seq::<ManifestFile>::empty());
    let (d, n1, s1) = manifest_entry(f1)->0;
    let (_d, n2, s2) = manifest_entry(f2)->0;
    assert(index_of(Seq::<ManifestFile>::empty()) == Map::<Seq<char>, (Seq<char>, u64)>::empty());
    assert(seq![f1].last() == f1);
    assert(s.last() == f2);
    assert(index_of(seq![f1]) == Map::<Seq<char>, (Seq<char>, u64)>::empty().insert(d, (n1, s1)));
    assert(index_of(s) =~= map![d => (n1 + ", "@ + n2, s2)]);
}

/// The two files are the only ones in the sequence whose weights digest is
/// the one they share.
pub open spec fn only_pair_with_digest(files: Seq<ManifestFile>, i: int, j: int) -> bool {
    &&& 0 <= i < j < files.len()
    &&& manifest_entry(files[i]) is Some
    &&& manifest_entry(files[j]) is Some
    &&& (manifest_entry(files[i])->0).0 == (manifest_entry(files[j])->0).0
    &&& forall|k: int|
        0 <= k < files.len() && k != i && k != j && (#[trigger] manifest_entry(files[k])) is Some
            ==> (manifest_entry(files[k])->0).0 != (manifest_entry(files[i])->0).0
}

proof fn lemma_shared_digest_prefix(files: Seq<ManifestFile>, i: int, j: int, k: int)
    requires
        only_pair_with_digest(files, i, j),
        0 <= k <= files.len(),
    ensures
        ({
            let m = index_of(files.subrange(0, k));
            let (d, ni, si) = manifest_entry(files[i])->0;
            let (_d, nj, sj) = manifest_entry(files[j])->0;
            &&& k <= i ==> !m.contains_key(d)
            &&& i < k <= j ==> m.contains_key(d) && m[d] == (ni, si)
            &&& j < k ==> m.contains_key(d) && m[d] == (ni + ", "@ + nj, sj)
        }),
    decreases k,
{
    if k > 0 {
        lemma_shared_digest_prefix(files, i, j, k - 1);
        let p = files.subrange(0, k);
        assert(p.drop_last() =~= files.subrange(0, k - 1));
        assert(p.last() == files[k - 1]);
    }
}

/// In any sequence of manifest files, two files that alone share a weights
/// digest give one index entry whose name is both display names joined by
/// ", " in visit order, and whose size is the one seen last.
pub proof fn lemma_shared_digest_in_any_tree(files: Seq<ManifestFile>, i: int, j: int)
    requires
        only_pair_with_digest(files, i, j),
    ensures
        ({
            let (d, ni, _si) = manifest_entry(files[i])->0;
            let (_d, nj, sj) = manifest_entry(files[j])->0;
            index_of(files).contains_key(d) && index_of(files)[d] == (ni + ", "@ + nj, sj)
        }),
{
    lemma_shared_digest_prefix(files, i, j, files.len() as int);
    assert(files.subrange(0, files.len() as int) =~= files);
}

} // verus!
