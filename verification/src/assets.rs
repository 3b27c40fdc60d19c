//! The image registry: game assets and submissions, kept by the id of
//! the message that hosts each image.

use crate::state::EngineError;
use vstd::prelude::*;

verus! {

/// The two kinds of prepared drawing assets.
#[derive(Clone, Copy, Debug, PartialEq, Eq, Structural)]
pub enum AssetKind {
    InConstruction,
    DrawThis,
}

/// What a registered image is: a prepared asset, or a player submission.
#[derive(Clone, Copy, Debug, PartialEq, Eq, Structural)]
pub enum ImageKind {
    Asset(AssetKind),
    Submission,
}

impl From<AssetKind> for ImageKind {
    fn from(value: AssetKind) -> (r: ImageKind) {
        ImageKind::Asset(value)
    }
}

impl vstd::std_specs::convert::FromSpecImpl<AssetKind> for ImageKind {
    open spec fn obeys_from_spec() -> bool {
        true
    }

    open spec fn from_spec(t: AssetKind) -> ImageKind {
        ImageKind::Asset(t)
    }
}

/// One registered image: its kind and the user who drew it.
#[derive(Clone, Copy, Debug, PartialEq, Eq, Structural)]
pub struct Image {
    pub kind: ImageKind,
    pub author: u64,
    pub created_at: i64,
}

impl Image {
    pub fn new(kind: ImageKind, author: u64, now: i64) -> (r: Image)
        ensures
            r == (Image { kind, author, created_at: now }),
    {
        Image { kind, author, created_at: now }
    }
}

/// A registry row: the hosting message's id and the image itself.
#[derive(Clone, Copy, Debug, PartialEq, Eq, Structural)]
pub struct ImageEntry {
    pub id: u64,
    pub image: Image,
}

/// Positions of the entries of one kind, in registry order.
pub open spec fn kind_indices(s: Seq<ImageEntry>, kind: ImageKind) -> Seq<usize>
    decreases s.len(),
{
    if s.len() == 0 {
        Seq::empty()
    } else if s.last().image.kind == kind {
        kind_indices(s.drop_last(), kind).push((s.len() - 1) as usize)
    } else {
        kind_indices(s.drop_last(), kind)
    }
}

/// The image registry.  Its invariant: one entry per image id.
#[derive(Debug)]
pub struct ImageRepository {
    pub entries: Vec<ImageEntry>,
}

impl ImageRepository {
    /// Ids are unique in the registry.
    pub open spec fn wf(self) -> bool {
        forall|i: int, j: int|
            0 <= i < j < self.entries@.len() ==> (#[trigger] self.entries@[i]).id != (
            #[trigger] self.entries@[j]).id
    }

    /// Some entry carries the id.
    pub open spec fn has_image(self, id: u64) -> bool {
        exists|i: int| 0 <= i < self.entries@.len() && (#[trigger] self.entries@[i]).id == id
    }

    pub fn new() -> (r: ImageRepository)
        ensures
            r.wf(),
            r.entries@.len() == 0,
    {
        ImageRepository { entries: Vec::new() }
    }

    /// Register an image under a fresh id; registering an id twice is a
    /// conflict and changes nothing.
    pub fn create(&mut self, id: u64, image: Image) -> (r: Result<(), EngineError>)
        requires
            old(self).wf(),
        ensures
            final(self).wf(),
            match r {
                Ok(()) => {
                    &&& !old(self).has_image(id)
                    &&& final(self).entries@ == old(self).entries@.push(ImageEntry { id, image })
                },
                Err(e) => {
                    &&& e == EngineError::StateConflict
                    &&& old(self).has_image(id)
                    &&& final(self).entries@ == old(self).entries@
                },
            },
    {
        let n = self.entries.len();
        let mut i: usize = 0;
        while i < n
            invariant
                i <= n,
                n == self.entries@.len(),
                *self == *old(self),
                old(self).wf(),
                forall|k: int| 0 <= k < i ==> (#[trigger] self.entries@[k]).id != id,
            decreases n - i,
        {
            if self.entries[i].id == id {
                return Err(EngineError::StateConflict);
            }
            i = i + 1;
        }
        self.entries.push(ImageEntry { id, image });
        Ok(())
    }

    /// Drop the image registered under `id`; an unknown id is reported
    /// as `NotFound`.
    pub fn delete(&mut self, id: u64) -> (r: Result<(), EngineError>)
        requires
            old(self).wf(),
        ensures
            final(self).wf(),
            match r {
                Ok(()) => {
                    &&& old(self).has_image(id)
                    &&& exists|j: int|
                        0 <= j < old(self).entries@.len() && (#[trigger] old(
                            self,
                        ).entries@[j]).id == id && final(self).entries@ == old(
                            self,
                        ).entries@.remove(j)
                },
                Err(e) => {
                    &&& e == EngineError::NotFound
                    &&& !old(self).has_image(id)
                    &&& final(self).entries@ == old(self).entries@
                },
            },
    {
        let n = self.entries.len();
        let mut i: usize = 0;
        while i < n
            invariant
                i <= n,
                n == self.entries@.len(),
                *self == *old(self),
                old(self).wf(),
                forall|k: int| 0 <= k < i ==> (#[trigger] self.entries@[k]).id != id,
            decreases n - i,
        {
            if self.entries[i].id == id {
                let ghost prev = self.entries@;
                self.entries.remove(i);
                proof {
                    assert(self.entries@ =~= prev.subrange(0, i as int) + prev.subrange(
                        i + 1,
                        prev.len() as int,
                    ));
                    assert forall|k1: int, k2: int|
                        0 <= k1 < k2 < self.entries@.len() implies (
                    #[trigger] self.entries@[k1]).id != (#[trigger] self.entries@[k2]).id by {
                        let o1: int = if k1 < i {
                            k1
                        } else {
                            k1 + 1
                        };
                        let o2: int = if k2 < i {
                            k2
                        } else {
                            k2 + 1
                        };
                        assert(self.entries@[k1] == prev[o1]);
                        assert(self.entries@[k2] == prev[o2]);
                    }
                }
                return Ok(());
            }
            i = i + 1;
        }
        Err(EngineError::NotFound)
    }

    /// Positions of the entries of one kind, in registry order.
    fn collect_kind(&self, kind: ImageKind) -> (r: Vec<usize>)
        ensures
            r@ == kind_indices(self.entries@, kind),
    {
        let n = self.entries.len();
        let mut out: Vec<usize> = Vec::new();
        let mut i: usize = 0;
        while i < n
            invariant
                i <= n,
                n == self.entries@.len(),
                out@ == kind_indices(self.entries@.take(i as int), kind),
            decreases n - i,
        {
            proof {
                assert(self.entries@.take(i + 1).drop_last() =~= self.entries@.take(i as int));
            }
            if self.entries[i].image.kind == kind {
                out.push(i);
            }
            i = i + 1;
        }
        proof {
            assert(self.entries@.take(n as int) =~= self.entries@);
        }
        out
    }

    /// Up to `n` registry positions of entries of the kind, chosen by
    /// `seed`: fewer only if fewer exist.
    pub fn random(&self, kind: ImageKind, n: u32, seed: u64) -> (r: Vec<usize>)
        ensures
            r@.len() == if kind_indices(self.entries@, kind).len() <= n {
                kind_indices(self.entries@, kind).len()
            } else {
                n as nat
            },
            forall|j1: int, j2: int| 0 <= j1 < j2 < r@.len() ==> r@[j1] != r@[j2],
            forall|j: int|
                0 <= j < r@.len() ==> 0 <= r@[j] < self.entries@.len() && (
                #[trigger] self.entries@[r@[j] as int]).image.kind == kind,
    {
        let matching = self.collect_kind(kind);
        proof {
            assert(self.entries@.len() == self.entries.len());
            lemma_kind_indices_range(self.entries@, kind);
        }
        let total = matching.len();
        if total <= n as usize {
            return matching;
        }
        let want = n as usize;
        let start = if want == 0 {
            0
        } else {
            (seed % ((total - want + 1) as u64)) as usize
        };
        let mut out: Vec<usize> = Vec::new();
        let mut k: usize = 0;
        while k < want
            invariant
                k <= want,
                want < total,
                total == matching@.len(),
                start + want <= total,
                out@.len() == k,
                forall|j: int| 0 <= j < k ==> out@[j] == matching@[start + j],
                matching@ == kind_indices(self.entries@, kind),
                forall|j1: int, j2: int|
                    0 <= j1 < j2 < matching@.len() ==> matching@[j1] != matching@[j2],
                forall|j: int|
                    0 <= j < matching@.len() ==> 0 <= matching@[j] < self.entries@.len() && (
                    #[trigger] self.entries@[matching@[j] as int]).image.kind == kind,
            decreases want - k,
        {
            out.push(matching[start + k]);
            k = k + 1;
        }
        out
    }

    /// A page of registry positions of entries of the kind: skip `start`
    /// of them, hand back at most `limit`.
    pub fn get(&self, kind: ImageKind, limit: u64, start: u64) -> (r: Vec<usize>)
        ensures
            ({
                let all = kind_indices(self.entries@, kind);
                let lo = if start <= all.len() {
                    start as int
                } else {
                    all.len() as int
                };
                let hi = if start + limit <= all.len() {
                    (start + limit) as int
                } else {
                    all.len() as int
                };
                r@ == all.subrange(lo, hi)
            }),
    {
        let matching = self.collect_kind(kind);
        let total = matching.len();
        let lo = if start <= total as u64 {
            start as usize
        } else {
            total
        };
        let remaining = total - lo;
        let take = if limit <= remaining as u64 {
            limit as usize
        } else {
            remaining
        };
        let mut out: Vec<usize> = Vec::new();
        let mut k: usize = 0;
        while k < take
            invariant
                k <= take,
                lo + take <= total,
                total == matching@.len(),
                out@.len() == k,
                forall|j: int| 0 <= j < k ==> out@[j] == matching@[lo + j],
            decreases take - k,
        {
            out.push(matching[lo + k]);
            k = k + 1;
        }
        proof {
            assert(out@ =~= matching@.subrange(lo as int, lo + take));
        }
        out
    }

    /// How many entries of the kind the registry holds.
    pub fn count(&self, kind: ImageKind) -> (r: u64)
        ensures
            r == kind_indices(self.entries@, kind).len(),
    {
        let matching = self.collect_kind(kind);
        proof {
            assert(self.entries@.len() == self.entries.len());
            lemma_kind_indices_range(self.entries@, kind);
        }
        matching.len() as u64
    }
}

/// The positions a kind filter reports are strictly increasing and point
/// at entries of that kind.
pub proof fn lemma_kind_indices_range(s: Seq<ImageEntry>, kind: ImageKind)
    requires
        s.len() <= usize::MAX,
    ensures
        kind_indices(s, kind).len() <= s.len(),
        forall|j1: int, j2: int|
            0 <= j1 < j2 < kind_indices(s, kind).len() ==> kind_indices(s, kind)[j1] < kind_indices(
                s,
                kind,
            )[j2],
        forall|j: int|
            0 <= j < kind_indices(s, kind).len() ==> 0 <= (#[trigger] kind_indices(s, kind)[j])
                < s.len() && s[kind_indices(s, kind)[j] as int].image.kind == kind,
    decreases s.len(),
{
    if s.len() > 0 {
        lemma_kind_indices_range(s.drop_last(), kind);
        let all = kind_indices(s, kind);
        let prefix = kind_indices(s.drop_last(), kind);
        assert forall|j: int| 0 <= j < all.len() implies 0 <= (#[trigger] all[j]) < s.len()
            && s[all[j] as int].image.kind == kind by {
            if j < prefix.len() {
                assert(all[j] == prefix[j]);
                assert(prefix[j] < s.drop_last().len());
                assert(s.drop_last()[prefix[j] as int] == s[prefix[j] as int]);
            } else {
                assert(s.last().image.kind == kind);
                assert(all[j] == s.len() - 1);
            }
        }
        assert forall|j1: int, j2: int| 0 <= j1 < j2 < all.len() implies all[j1] < all[j2] by {
            if j2 < prefix.len() {
                assert(all[j1] == prefix[j1] && all[j2] == prefix[j2]);
            } else {
                assert(all[j1] == prefix[j1]);
                assert(prefix[j1] < s.drop_last().len());
                assert(all[j2] == s.len() - 1);
            }
        }
    }
}

} // verus!
