//! Disk identity: a read-only mapping from partition GUID to the
//! human-readable name of the disk holding the partition, and the
//! vendor/model display-name normalisation.
use vstd::prelude::*;
use vstd::string::*;

verus! {

/// Maps each partition GUID seen during one discovery pass to the display
/// name of its disk. Built once, read-only afterwards.
pub struct DiskMap {
    guids: Vec<u128>,
    names: Vec<String>,
}

impl DiskMap {
    /// One name per GUID, no GUID twice.
    pub closed spec fn wf(self) -> bool {
        &&& self.guids@.len() == self.names@.len()
        &&& forall|i: int, j: int|
            0 <= i < j < self.guids@.len() ==> self.guids@[i] != self.guids@[j]
    }

    /// Whether some disk holds a partition with this GUID.
    pub closed spec fn contains_guid(self, g: u128) -> bool {
        exists|i: int| 0 <= i < self.guids@.len() && self.guids@[i] == g
    }

    /// The disk name recorded for this GUID.
    pub closed spec fn name_of(self, g: u128) -> Seq<char> {
        self.names@[choose|i: int| 0 <= i < self.guids@.len() && self.guids@[i] == g]@
    }

    /// An empty mapping.
    pub fn new() -> (r: DiskMap)
        ensures
            r.wf(),
            forall|g: u128| !r.contains_guid(g),
    {
        DiskMap { guids: Vec::new(), names: Vec::new() }
    }

    /// Records that the partition with GUID `g` lies on the disk named
    /// `name`, replacing any earlier record for `g`.
    pub fn insert(&mut self, g: u128, name: String)
        requires
            old(self).wf(),
        ensures
            final(self).wf(),
            forall|x: u128| final(self).contains_guid(x) <==> (x == g || old(self).contains_guid(x)),
            final(self).name_of(g) == name@,
            forall|x: u128|
                x != g && old(self).contains_guid(x) ==> final(self).name_of(x) == old(
                    self,
                ).name_of(x),
    {
        let n = self.guids.len();
        let mut i: usize = 0;
        while i < n
            invariant
                n == self.guids@.len(),
                i <= n,
                self.wf(),
                forall|j: int| 0 <= j < i ==> self.guids@[j] != g,
                *self == *old(self),
            decreases n - i,
        {
            if self.guids[i] == g {
                self.names.set(i, name);
                proof {
                    lemma_unique_index(self.guids@, g, i as int);
                    assert(forall|x: u128|
                        self.contains_guid(x) <==> (x == g || old(self).contains_guid(x)));
                    assert forall|x: u128| x != g && old(self).contains_guid(x) implies
                        self.name_of(x) == old(self).name_of(x) by {
                        lemma_unique_index(
                            self.guids@,
                            x,
                            choose|k: int| 0 <= k < self.guids@.len() && self.guids@[k] == x,
                        );
                    }
                }
                return ;
            }
            i = i + 1;
        }
        self.guids.push(g);
        self.names.push(name);
        proof {
            assert(self.guids@[n as int] == g);
            assert(forall|x: u128|
                old(self).contains_guid(x) ==> self.contains_guid(x)) by {
                assert(forall|k: int|
                    0 <= k < old(self).guids@.len() ==> self.guids@[k] == #[trigger] old(
                        self,
                    ).guids@[k]);
            }
            lemma_unique_index(self.guids@, g, n as int);
            assert forall|x: u128| x != g && old(self).contains_guid(x) implies self.name_of(x)
                == old(self).name_of(x) by {
                lemma_unique_index(
                    self.guids@,
                    x,
                    choose|k: int| 0 <= k < self.guids@.len() && self.guids@[k] == x,
                );
            }
        }
    }

    /// Looks up the disk name recorded for a partition GUID.
    pub fn get(&self, g: u128) -> (r: Option<&String>)
        requires
            self.wf(),
        ensures
            r is Some <==> self.contains_guid(g),
            r matches Some(s) ==> s@ == self.name_of(g),
    {
        let n = self.guids.len();
        let mut i: usize = 0;
        while i < n
            invariant
                n == self.guids@.len(),
                i <= n,
                self.wf(),
                forall|j: int| 0 <= j < i ==> self.guids@[j] != g,
            decreases n - i,
        {
            if self.guids[i] == g {
                proof {
                    lemma_unique_index(self.guids@, g, i as int);
                }
                return Some(&self.names[i]);
            }
            i = i + 1;
        }
        None
    }
}

/// In a duplicate-free sequence the position of a value is unique, so the
/// chosen index of a present value is the index where it was found.
proof fn lemma_unique_index(s: Seq<u128>, g: u128, i: int)
    requires
        forall|p: int, q: int| 0 <= p < q < s.len() ==> s[p] != s[q],
        0 <= i < s.len(),
        s[i] == g,
    ensures
        (choose|k: int| 0 <= k < s.len() && s[k] == g) == i,
{
    let k = choose|k: int| 0 <= k < s.len() && s[k] == g;
    if k < i {
        assert(s[k] != s[i]);
    } else if k > i {
        assert(s[i] != s[k]);
    }
}

/// The display name a disk gets from its identification strings: vendor and
/// model concatenated, with a single trailing space (a common sysfs
/// artifact) removed — one space only, exactly as discovered names carry it.
pub open spec fn display_name_of(vendor: Seq<char>, model: Seq<char>) -> Seq<char> {
    let joined = vendor + seq![' '] + model;
    if joined.len() > 0 && joined.last() == ' ' {
        joined.drop_last()
    } else {
        joined
    }
}

/// Builds the display name of a disk from its vendor and model strings.
pub fn disk_display_name(vendor: &str, model: &str) -> (r: String)
    ensures
        r@ == display_name_of(vendor@, model@),
{
    let mut joined = vendor.to_owned();
    joined.append(" ");
    joined.append(model);
    proof {
        reveal_strlit(" ");
        assert((" ")@ =~= seq![' ']);
        assert(joined@ =~= vendor@ + seq![' '] + model@);
    }
    let n = joined.as_str().unicode_len();
    if n > 0 && joined.as_str().get_char(n - 1) == ' ' {
        let trimmed = joined.as_str().substring_char(0, n - 1).to_owned();
        proof {
            assert(trimmed@ =~= (vendor@ + seq![' '] + model@).drop_last());
        }
        trimmed
    } else {
        joined
    }
}

} // verus!
