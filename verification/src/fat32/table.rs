//! The file allocation table: one 32-bit entry per cluster, threading the
//! clusters of each file and directory into a chain.
//!
//! An entry of zero marks a free cluster. A number of 0x0FFFFFF8 or more ends
//! a chain. The cluster that follows another is named by the low 28 bits of
//! that cluster's entry.

use crate::fat32::error::FsError;
use vstd::prelude::*;

verus! {

/// The smallest value that ends a chain.
pub const FIRST_END_MARK: u32 = 0x0FFF_FFF8;

/// The entry written for the last cluster of a chain.
pub const END_OF_CHAIN: u32 = 0xFFFF_FFFF;

/// What an empty chain starts with.
pub const NO_CLUSTER: u32 = 0x0FFF_FFFF;

/// The entry of a free cluster.
pub const FREE: u32 = 0;

/// The first cluster that can hold data.
pub const FIRST_CLUSTER: u32 = 2;

/// Whether `entry` ends a chain: it is 0x0FFFFFF8 or more.
pub open spec fn is_end(entry: u32) -> bool {
    entry >= FIRST_END_MARK
}

/// The cluster that follows `cluster`: the low 28 bits of its entry. A
/// cluster without an entry in the table is followed by nothing.
pub open spec fn next_cluster(table: Seq<u32>, cluster: u32) -> u32 {
    if cluster < table.len() {
        (table[cluster as int] % 0x1000_0000) as u32
    } else {
        NO_CLUSTER
    }
}

/// The clusters of the chain that starts at `start`, in order, up to the
/// first end mark and not more than `limit` of them.
pub open spec fn chain_clusters(table: Seq<u32>, start: u32, limit: nat) -> Seq<u32>
    decreases limit,
{
    if limit == 0 || is_end(start) {
        Seq::empty()
    } else {
        seq![start] + chain_clusters(table, next_cluster(table, start), (limit - 1) as nat)
    }
}

/// Whether the walk that releases a chain stops at `cluster`: at an end
/// mark, at a reserved cluster, or at a cluster without an entry.
pub open spec fn release_stops(table: Seq<u32>, cluster: u32) -> bool {
    is_end(cluster) || cluster < FIRST_CLUSTER || cluster >= table.len()
}

/// The table after the chain that starts at `start` was released: the entry
/// of each cluster visited is zero. The walk ends where it stops, or after
/// `limit` clusters.
pub open spec fn released(table: Seq<u32>, start: u32, limit: nat) -> Seq<u32>
    decreases limit,
{
    if limit == 0 || release_stops(table, start) {
        table
    } else {
        released(table.update(start as int, FREE), next_cluster(table, start), (limit - 1) as nat)
    }
}

/// One more than the largest cluster number that can be handed out.
pub open spec fn usable_len(table: Seq<u32>) -> int {
    if table.len() < FIRST_END_MARK {
        table.len() as int
    } else {
        FIRST_END_MARK as int
    }
}

/// The first free cluster at or after `from`, or `usable_len` if none is left.
pub open spec fn first_free(table: Seq<u32>, from: int) -> int
    decreases usable_len(table) - from,
{
    if from < 0 || from >= usable_len(table) {
        usable_len(table)
    } else if table[from] == FREE {
        from
    } else {
        first_free(table, from + 1)
    }
}

/// The first `count` free clusters at or after `from`, in ascending order,
/// or nothing if fewer are left.
pub open spec fn free_clusters(table: Seq<u32>, from: int, count: nat) -> Option<Seq<u32>>
    decreases count,
{
    if count == 0 {
        Some(Seq::empty())
    } else {
        let c = first_free(table, from);
        if c >= usable_len(table) {
            None
        } else {
            match free_clusters(table, c + 1, (count - 1) as nat) {
                None => None,
                Some(rest) => Some(seq![c as u32] + rest),
            }
        }
    }
}

/// The table after `clusters` were linked into a chain: each entry names the
/// cluster after it, the last one holds the end mark.
pub open spec fn linked(table: Seq<u32>, clusters: Seq<u32>) -> Seq<u32>
    decreases clusters.len(),
{
    if clusters.len() == 0 {
        table
    } else if clusters.len() == 1 {
        table.update(clusters[0] as int, END_OF_CHAIN)
    } else {
        linked(table.update(clusters[0] as int, clusters[1]), clusters.subrange(1, clusters.len() as int))
    }
}

/// What allocating a chain of `length` clusters gives: its first cluster and
/// the new table, or `OutOfSpace`. A chain of no clusters starts with
/// `NO_CLUSTER` and changes nothing.
pub open spec fn allocate_outcome(table: Seq<u32>, length: nat) -> Result<(u32, Seq<u32>), FsError> {
    if length == 0 {
        Ok((NO_CLUSTER, table))
    } else {
        match free_clusters(table, FIRST_CLUSTER as int, length) {
            None => Err(FsError::OutOfSpace),
            Some(clusters) => Ok((clusters[0], linked(table, clusters))),
        }
    }
}

/// Number of free clusters among the first `upto` entries.
pub open spec fn free_count(table: Seq<u32>, upto: int) -> nat
    decreases upto,
{
    if upto <= 0 {
        0
    } else {
        free_count(table, upto - 1) + if upto <= table.len() && table[upto - 1] == FREE {
            1nat
        } else {
            0nat
        }
    }
}

/// What a table entry says of its cluster.
pub enum FATEntry {
    /// The cluster is free.
    Free,
    /// The cluster is reserved and cannot be used.
    Reserved,
    /// The cluster is followed by the cluster named.
    Next(u32),
    /// The cluster is the last of its chain.
    End,
}

/// What `entry` says of its cluster: 0 and 1 mark a free and a reserved
/// cluster, a number of 0x0FFFFFF8 or more ends the chain, and any other
/// number names the cluster that follows.
pub open spec fn entry_kind(entry: u32) -> FATEntry {
    if entry == 0 {
        FATEntry::Free
    } else if entry == 1 {
        FATEntry::Reserved
    } else if is_end(entry) {
        FATEntry::End
    } else {
        FATEntry::Next(entry)
    }
}

impl FATEntry {
    /// What `entry` says of its cluster.
    pub fn classify(entry: u32) -> (kind: FATEntry)
        ensures
            kind == entry_kind(entry),
    {
        if entry == 0 {
            FATEntry::Free
        } else if entry == 1 {
            FATEntry::Reserved
        } else if FATEntry::end(entry) {
            FATEntry::End
        } else {
            FATEntry::Next(entry)
        }
    }

    /// Whether `entry` ends a chain: it is 0x0FFFFFF8 or more.
    #[inline]
    pub fn end(entry: u32) -> (ends: bool)
        ensures
            ends == is_end(entry),
    {
        entry >= 0x0FFF_FFF8
    }
}

/// The in-memory mirror of the volume's file allocation table.
pub struct FAT {
    pub table: Vec<u32>,
    pub sectors_per_fat: u32,
    pub fat_num: u8,
}

/// Walks the free clusters of a table in ascending order, from cluster 2 on.
pub struct FATChainSearcher {
    pub fat_offset: u32,
}

impl FATChainSearcher {
    /// A searcher that has not handed out any cluster yet.
    pub fn new() -> (searcher: Self)
        ensures
            searcher.fat_offset == FIRST_CLUSTER,
    {
        FATChainSearcher { fat_offset: 0x02 }
    }

    /// The next free cluster of `fat`, or `None` when no cluster is left; the
    /// search goes on behind the cluster handed out.
    pub fn next(&mut self, fat: &FAT) -> (found: Option<u32>)
        ensures
            first_free(fat.table@, old(self).fat_offset as int) < usable_len(fat.table@) ==> found
                == Some(first_free(fat.table@, old(self).fat_offset as int) as u32) && final(self).fat_offset == first_free(fat.table@, old(self).fat_offset as int) + 1,
            first_free(fat.table@, old(self).fat_offset as int) >= usable_len(fat.table@) ==> found
                is None && final(self).fat_offset == old(self).fat_offset,
    {
        let n: usize = fat.table.len();
        let start: u32 = self.fat_offset;
        let mut at: u32 = start;
        while at < 0x0FFF_FFF8 && (at as usize) < n && fat.table[at as usize] != 0
            invariant
                start <= at,
                n == fat.table@.len(),
                first_free(fat.table@, start as int) == first_free(fat.table@, at as int),
            decreases 0x0FFF_FFF8 - at,
        {
            at += 1;
        }
        if at < 0x0FFF_FFF8 && (at as usize) < n {
            self.fat_offset = at + 1;
            Some(at)
        } else {
            None
        }
    }
}

/// Walks the clusters of one chain.
pub struct FATChainFollower {
    pub current_chain: u32,
    pub remaining: usize,
}

impl FATChainFollower {
    /// A follower about to visit `current_chain`, for a chain in `fat`.
    pub fn new(current_chain: u32, fat: &FAT) -> (follower: Self)
        ensures
            follower.current_chain == current_chain,
            follower.remaining == fat.table@.len(),
    {
        FATChainFollower { current_chain, remaining: fat.table.len() }
    }

    /// The clusters that this follower still has to visit.
    pub open spec fn pending(&self, table: Seq<u32>) -> Seq<u32> {
        chain_clusters(table, self.current_chain, self.remaining as nat)
    }

    /// The next cluster of the chain, or `None` when the chain has ended.
    pub fn next(&mut self, fat: &FAT) -> (cluster: Option<u32>)
        ensures
            cluster is None <==> (old(self).remaining == 0 || is_end(old(self).current_chain)),
            cluster is None ==> *final(self) == *old(self),
            cluster is Some ==> cluster == Some(old(self).current_chain) && final(self).current_chain == next_cluster(fat.table@, old(self).current_chain) && final(self).remaining == old(self).remaining - 1,
            old(self).pending(fat.table@).len() == 0 ==> cluster is None && *final(self) == *old(self),
            old(self).pending(fat.table@).len() > 0 ==> cluster == Some(
                old(self).pending(fat.table@)[0],
            ) && final(self).remaining + 1 == old(self).remaining && final(self).pending(fat.table@) == old(self).pending(fat.table@).subrange(
                1,
                old(self).pending(fat.table@).len() as int,
            ),
    {
        let current: u32 = self.current_chain;
        if self.remaining == 0 || FATEntry::end(current) {
            return None;
        }
        self.current_chain = fat.next(current);
        self.remaining = self.remaining - 1;
        proof {
            let before = old(self).pending(fat.table@);
            assert(before.subrange(1, before.len() as int) =~= self.pending(fat.table@));
        }
        Some(current)
    }
}

impl FAT {
    /// A mirror holding `table`, for a volume with `fat_num` copies of
    /// `sectors_per_fat` sectors each.
    pub fn new(table: Vec<u32>, sectors_per_fat: u32, fat_num: u8) -> (fat: Self)
        ensures
            fat.table@ == table@,
            fat.sectors_per_fat == sectors_per_fat,
            fat.fat_num == fat_num,
    {
        FAT { table, sectors_per_fat, fat_num }
    }

    /// The cluster that follows `cluster` in its chain.
    pub fn next(&self, cluster: u32) -> (next: u32)
        ensures
            next == next_cluster(self.table@, cluster),
    {
        if (cluster as usize) < self.table.len() {
            self.table[cluster as usize] % 0x1000_0000
        } else {
            NO_CLUSTER
        }
    }

    /// Stores `value` as the entry of `cluster`.
    pub fn set_entry(&mut self, cluster: u32, value: u32)
        requires
            cluster < old(self).table@.len(),
        ensures
            final(self).table@ == old(self).table@.update(cluster as int, value),
            final(self).sectors_per_fat == old(self).sectors_per_fat,
            final(self).fat_num == old(self).fat_num,
    {
        self.table[cluster as usize] = value;
    }

    /// The clusters of the chain that starts at `start`, in order.
    pub fn chain(&self, start: u32) -> (clusters: Vec<u32>)
        ensures
            clusters@ == chain_clusters(self.table@, start, self.table@.len()),
    {
        let mut follower = FATChainFollower::new(start, self);
        let mut clusters: Vec<u32> = Vec::new();
        loop
            invariant
                follower.remaining <= self.table@.len(),
                clusters@ + follower.pending(self.table@) == chain_clusters(
                    self.table@,
                    start,
                    self.table@.len(),
                ),
            decreases follower.remaining,
        {
            let ghost before = follower.pending(self.table@);
            match follower.next(self) {
                None => {
                    assert(clusters@ + before =~= clusters@);
                    return clusters;
                },
                Some(c) => {
                    proof {
                        assert(clusters@.push(c) + before.subrange(1, before.len() as int) =~= clusters@
                            + before);
                    }
                    clusters.push(c);
                },
            }
        }
    }

    /// The last cluster of the chain that starts at `start`, or `None` where
    /// the chain is empty.
    pub fn last_of_chain(&self, start: u32) -> (last: Option<u32>)
        ensures
            chain_clusters(self.table@, start, self.table@.len()).len() == 0 ==> last is None,
            chain_clusters(self.table@, start, self.table@.len()).len() > 0 ==> last == Some(
                chain_clusters(self.table@, start, self.table@.len()).last(),
            ),
    {
        let clusters = self.chain(start);
        if clusters.len() == 0 {
            None
        } else {
            Some(clusters[clusters.len() - 1])
        }
    }

    /// The first `length` free clusters in ascending order, or `None` if
    /// fewer are left.
    pub fn find_free(&self, length: usize) -> (found: Option<Vec<u32>>)
        ensures
            match free_clusters(self.table@, FIRST_CLUSTER as int, length as nat) {
                None => found is None,
                Some(clusters) => found is Some && found->Some_0@ == clusters,
            },
    {
        let mut searcher = FATChainSearcher::new();
        let mut clusters: Vec<u32> = Vec::new();
        let mut k: usize = 0;
        while k < length
            invariant
                k <= length,
                clusters@.len() == k,
                free_clusters(self.table@, FIRST_CLUSTER as int, length as nat) == match free_clusters(
                    self.table@,
                    searcher.fat_offset as int,
                    (length - k) as nat,
                ) {
                    None => None::<Seq<u32>>,
                    Some(rest) => Some(clusters@ + rest),
                },
            decreases length - k,
        {
            let ghost from = searcher.fat_offset as int;
            match searcher.next(self) {
                None => {
                    return None;
                },
                Some(c) => {
                    proof {
                        match free_clusters(self.table@, c + 1, (length - k - 1) as nat) {
                            None => {},
                            Some(rest) => {
                                assert(clusters@.push(c) + rest =~= clusters@ + (seq![c] + rest));
                            },
                        }
                    }
                    clusters.push(c);
                },
            }
            k += 1;
        }
        proof {
            assert(clusters@ + Seq::<u32>::empty() =~= clusters@);
        }
        Some(clusters)
    }

    /// Links `clusters` into a chain: each entry names the cluster after it,
    /// the last one holds the end mark.
    pub fn link(&mut self, clusters: &Vec<u32>)
        requires
            forall|i: int| 0 <= i < clusters@.len() ==> clusters@[i] < old(self).table@.len(),
        ensures
            final(self).table@ == linked(old(self).table@, clusters@),
            final(self).table@.len() == old(self).table@.len(),
            final(self).sectors_per_fat == old(self).sectors_per_fat,
            final(self).fat_num == old(self).fat_num,
    {
        let n: usize = clusters.len();
        if n == 0 {
            return ;
        }
        let mut i: usize = 0;
        assert(clusters@.subrange(0, n as int) =~= clusters@);
        while i + 1 < n
            invariant
                i < n,
                n == clusters@.len(),
                self.table@.len() == old(self).table@.len(),
                self.sectors_per_fat == old(self).sectors_per_fat,
                self.fat_num == old(self).fat_num,
                forall|j: int| 0 <= j < clusters@.len() ==> clusters@[j] < self.table@.len(),
                linked(old(self).table@, clusters@) == linked(
                    self.table@,
                    clusters@.subrange(i as int, n as int),
                ),
            decreases n - i,
        {
            let ghost rest = clusters@.subrange(i as int, n as int);
            proof {
                assert(rest.subrange(1, rest.len() as int) =~= clusters@.subrange(i + 1, n as int));
                assert(rest[0] == clusters@[i as int]);
                assert(rest[1] == clusters@[i + 1]);
            }
            self.table[clusters[i] as usize] = clusters[i + 1];
            i += 1;
        }
        proof {
            let rest = clusters@.subrange(i as int, n as int);
            assert(rest.len() == 1);
            assert(rest[0] == clusters@[i as int]);
        }
        self.table[clusters[i] as usize] = END_OF_CHAIN;
    }

    /// Allocates a chain of `length` clusters from the free clusters in
    /// ascending order and returns its first cluster. Fails with
    /// `OutOfSpace`, changing nothing, if fewer free clusters are left.
    pub fn allocate_chain(&mut self, length: usize) -> (result: Result<u32, FsError>)
        ensures
            match allocate_outcome(old(self).table@, length as nat) {
                Ok((start, table)) => result == Ok::<u32, FsError>(start) && final(self).table@
                    == table,
                Err(e) => result == Err::<u32, FsError>(e) && final(self).table@ == old(self).table@,
            },
            final(self).table@.len() == old(self).table@.len(),
            final(self).sectors_per_fat == old(self).sectors_per_fat,
            final(self).fat_num == old(self).fat_num,
    {
        if length == 0 {
            return Ok(NO_CLUSTER);
        }
        match self.find_free(length) {
            None => Err(FsError::OutOfSpace),
            Some(clusters) => {
                proof {
                    lemma_free_clusters(self.table@, FIRST_CLUSTER as int, length as nat);
                }
                self.link(&clusters);
                Ok(clusters[0])
            },
        }
    }

    /// Releases the chain that starts at `start`: the entry of each cluster
    /// of the chain becomes free. The walk ends at an end mark, at a
    /// reserved cluster or at a cluster without an entry.
    pub fn deallocate_chain(&mut self, start: u32)
        ensures
            final(self).table@ == released(old(self).table@, start, old(self).table@.len()),
            final(self).table@.len() == old(self).table@.len(),
            final(self).sectors_per_fat == old(self).sectors_per_fat,
            final(self).fat_num == old(self).fat_num,
    {
        let n: usize = self.table.len();
        let mut current: u32 = start;
        let mut visited: usize = 0;
        while visited < n && !FATEntry::end(current) && current >= FIRST_CLUSTER && (
        current as usize) < n
            invariant
                visited <= n,
                n == self.table@.len(),
                n == old(self).table@.len(),
                self.sectors_per_fat == old(self).sectors_per_fat,
                self.fat_num == old(self).fat_num,
                released(old(self).table@, start, n as nat) == released(
                    self.table@,
                    current,
                    (n - visited) as nat,
                ),
            decreases n - visited,
        {
            let next: u32 = self.next(current);
            self.table[current as usize] = FREE;
            current = next;
            visited += 1;
        }
    }

    /// Number of free clusters in the table.
    pub fn count_free(&self) -> (count: usize)
        ensures
            count == free_count(self.table@, self.table@.len() as int),
    {
        let n: usize = self.table.len();
        let mut count: usize = 0;
        let mut i: usize = 0;
        while i < n
            invariant
                i <= n,
                n == self.table@.len(),
                count <= i,
                count == free_count(self.table@, i as int),
            decreases n - i,
        {
            if self.table[i] == FREE {
                count += 1;
            }
            i += 1;
        }
        count
    }
}

/// The clusters that `free_clusters` finds are free, lie at or after `from`
/// and below `usable_len`, and ascend strictly.
pub proof fn lemma_free_clusters(table: Seq<u32>, from: int, count: nat)
    requires
        0 <= from,
    ensures
        free_clusters(table, from, count) is Some ==> {
            let clusters = free_clusters(table, from, count)->Some_0;
            &&& clusters.len() == count
            &&& forall|i: int|
                0 <= i < count ==> from + i <= #[trigger] clusters[i] < usable_len(table)
                    && table[clusters[i] as int] == FREE
            &&& forall|i: int, j: int| 0 <= i < j < count ==> clusters[i] < clusters[j]
        },
    decreases count,
{
    if count > 0 {
        lemma_first_free(table, from);
        let c = first_free(table, from);
        if c < usable_len(table) {
            lemma_free_clusters(table, c + 1, (count - 1) as nat);
            match free_clusters(table, c + 1, (count - 1) as nat) {
                None => {},
                Some(rest) => {
                    let clusters = seq![c as u32] + rest;
                    assert forall|i: int| 0 <= i < count implies from + i <= #[trigger] clusters[i]
                        < usable_len(table) && table[clusters[i] as int] == FREE by {
                        if i > 0 {
                            assert(clusters[i] == rest[i - 1]);
                        }
                    }
                    assert forall|i: int, j: int| 0 <= i < j < count implies clusters[i]
                        < clusters[j] by {
                        assert(clusters[j] == rest[j - 1]);
                        if i > 0 {
                            assert(clusters[i] == rest[i - 1]);
                        }
                    }
                },
            }
        }
    }
}

/// `first_free` lies at or after `from`; below `usable_len` it names a free
/// cluster.
pub proof fn lemma_first_free(table: Seq<u32>, from: int)
    requires
        0 <= from,
    ensures
        first_free(table, from) <= usable_len(table),
        first_free(table, from) < usable_len(table) ==> from <= first_free(table, from)
            && table[first_free(table, from)] == FREE,
    decreases usable_len(table) - from,
{
    if from < usable_len(table) && table[from] != FREE {
        lemma_first_free(table, from + 1);
    }
}

/// Releasing a chain keeps the table's length.
pub proof fn lemma_released_len(table: Seq<u32>, start: u32, limit: nat)
    ensures
        released(table, start, limit).len() == table.len(),
    decreases limit,
{
    if limit == 0 || release_stops(table, start) {
    } else {
        lemma_released_len(
            table.update(start as int, FREE),
            next_cluster(table, start),
            (limit - 1) as nat,
        );
    }
}

/// Clusters that ascend strictly and can all be handed out.
pub open spec fn ascending_clusters(table: Seq<u32>, clusters: Seq<u32>) -> bool {
    &&& forall|i: int| 0 <= i < clusters.len() ==> #[trigger] clusters[i] < usable_len(table)
    &&& forall|i: int, j: int| 0 <= i < j < clusters.len() ==> clusters[i] < clusters[j]
}

/// Linking keeps the table's length and every entry outside the chain.
pub proof fn lemma_linked_frame(table: Seq<u32>, clusters: Seq<u32>)
    requires
        forall|i: int| 0 <= i < clusters.len() ==> #[trigger] clusters[i] < table.len(),
    ensures
        linked(table, clusters).len() == table.len(),
        forall|k: int|
            0 <= k < table.len() && !clusters.contains(k as u32) ==> #[trigger] linked(
                table,
                clusters,
            )[k] == table[k],
    decreases clusters.len(),
{
    if clusters.len() == 0 {
    } else if clusters.len() == 1 {
        assert(clusters.contains(clusters[0]));
    } else {
        let rest = clusters.subrange(1, clusters.len() as int);
        let first = table.update(clusters[0] as int, clusters[1]);
        assert forall|i: int| 0 <= i < rest.len() implies #[trigger] rest[i] < first.len() by {
            assert(rest[i] == clusters[i + 1]);
        }
        lemma_linked_frame(first, rest);
        assert forall|k: int|
            0 <= k < table.len() && !clusters.contains(k as u32) implies #[trigger] linked(
            table,
            clusters,
        )[k] == table[k] by {
            assert(clusters.contains(clusters[0]));
            if rest.contains(k as u32) {
                let j = choose|j: int| 0 <= j < rest.len() && rest[j] == k as u32;
                assert(clusters[j + 1] == k as u32);
            }
        }
    }
}

/// An entry outside the chain can be set before or after linking.
pub proof fn lemma_linked_commute(table: Seq<u32>, clusters: Seq<u32>, at: int, value: u32)
    requires
        forall|i: int| 0 <= i < clusters.len() ==> #[trigger] clusters[i] < table.len(),
        0 <= at < table.len(),
        !clusters.contains(at as u32),
    ensures
        linked(table.update(at, value), clusters) == linked(table, clusters).update(at, value),
    decreases clusters.len(),
{
    if clusters.len() == 0 {
    } else if clusters.len() == 1 {
        assert(clusters.contains(clusters[0]));
        assert(table.update(at, value).update(clusters[0] as int, END_OF_CHAIN) =~= table.update(
            clusters[0] as int,
            END_OF_CHAIN,
        ).update(at, value));
    } else {
        let rest = clusters.subrange(1, clusters.len() as int);
        assert(clusters.contains(clusters[0]));
        assert forall|i: int| 0 <= i < rest.len() implies #[trigger] rest[i] < table.len() by {
            assert(rest[i] == clusters[i + 1]);
        }
        if rest.contains(at as u32) {
            let j = choose|j: int| 0 <= j < rest.len() && rest[j] == at as u32;
            assert(clusters[j + 1] == at as u32);
        }
        assert(table.update(at, value).update(clusters[0] as int, clusters[1]) =~= table.update(
            clusters[0] as int,
            clusters[1],
        ).update(at, value));
        lemma_linked_commute(table.update(clusters[0] as int, clusters[1]), rest, at, value);
    }
}

/// Walking a freshly linked chain visits exactly the clusters linked, in
/// order.
pub proof fn lemma_chain_of_linked(table: Seq<u32>, clusters: Seq<u32>, limit: nat)
    requires
        ascending_clusters(table, clusters),
        clusters.len() >= 1,
        limit >= clusters.len(),
    ensures
        chain_clusters(linked(table, clusters), clusters[0], limit) == clusters,
    decreases clusters.len(),
{
    let whole = linked(table, clusters);
    let head = clusters[0];
    assert(head < usable_len(table));
    if clusters.len() == 1 {
        assert(next_cluster(whole, head) == NO_CLUSTER);
        assert(chain_clusters(whole, NO_CLUSTER, (limit - 1) as nat) =~= Seq::<u32>::empty());
        assert(chain_clusters(whole, head, limit) =~= clusters);
    } else {
        let rest = clusters.subrange(1, clusters.len() as int);
        let first = table.update(head as int, clusters[1]);
        assert forall|i: int| 0 <= i < rest.len() implies #[trigger] rest[i] < usable_len(
            first,
        ) by {
            assert(rest[i] == clusters[i + 1]);
        }
        assert forall|i: int, j: int| 0 <= i < j < rest.len() implies rest[i] < rest[j] by {
            assert(rest[i] == clusters[i + 1]);
            assert(rest[j] == clusters[j + 1]);
        }
        assert forall|i: int| 0 <= i < rest.len() implies #[trigger] rest[i] < first.len() by {
            assert(rest[i] < usable_len(first));
        }
        if rest.contains(head) {
            let j = choose|j: int| 0 <= j < rest.len() && rest[j] == head;
            assert(clusters[j + 1] == head);
        }
        lemma_linked_frame(first, rest);
        assert(whole[head as int] == clusters[1]);
        assert(clusters[1] < usable_len(table));
        assert(next_cluster(whole, head) == clusters[1]);
        lemma_chain_of_linked(first, rest, (limit - 1) as nat);
        assert(rest[0] == clusters[1]);
        assert(seq![head] + rest =~= clusters);
    }
}

/// Releasing a freshly linked chain whose clusters were free before gives
/// the table back.
pub proof fn lemma_release_of_linked(table: Seq<u32>, clusters: Seq<u32>, limit: nat)
    requires
        ascending_clusters(table, clusters),
        forall|i: int| 0 <= i < clusters.len() ==> table[#[trigger] clusters[i] as int] == FREE,
        clusters.len() >= 1,
        clusters[0] >= FIRST_CLUSTER,
        limit >= clusters.len(),
    ensures
        released(linked(table, clusters), clusters[0], limit) == table,
    decreases clusters.len(),
{
    let whole = linked(table, clusters);
    let head = clusters[0];
    assert(head < usable_len(table));
    assert(table[clusters[0] as int] == FREE);
    if clusters.len() == 1 {
        assert(whole.update(head as int, FREE) =~= table);
        assert(next_cluster(whole, head) == NO_CLUSTER);
        assert(released(table, NO_CLUSTER, (limit - 1) as nat) == table);
        assert(released(whole, head, limit) == released(
            whole.update(head as int, FREE),
            next_cluster(whole, head),
            (limit - 1) as nat,
        ));
    } else {
        let rest = clusters.subrange(1, clusters.len() as int);
        let first = table.update(head as int, clusters[1]);
        assert forall|i: int| 0 <= i < rest.len() implies #[trigger] rest[i] < usable_len(
            table,
        ) by {
            assert(rest[i] == clusters[i + 1]);
        }
        assert forall|i: int, j: int| 0 <= i < j < rest.len() implies rest[i] < rest[j] by {
            assert(rest[i] == clusters[i + 1]);
            assert(rest[j] == clusters[j + 1]);
        }
        assert forall|i: int| 0 <= i < rest.len() implies table[#[trigger] rest[i] as int]
            == FREE by {
            assert(rest[i] == clusters[i + 1]);
        }
        assert forall|i: int| 0 <= i < rest.len() implies #[trigger] rest[i] < first.len() by {
            assert(rest[i] < usable_len(table));
        }
        if rest.contains(head) {
            let j = choose|j: int| 0 <= j < rest.len() && rest[j] == head;
            assert(clusters[j + 1] == head);
        }
        lemma_linked_frame(first, rest);
        assert(whole[head as int] == clusters[1]);
        assert(clusters[1] < usable_len(table));
        assert(next_cluster(whole, head) == clusters[1]);
        lemma_linked_commute(first, rest, head as int, FREE);
        assert(first.update(head as int, FREE) =~= table);
        assert(whole.update(head as int, FREE) == linked(table, rest));
        assert(rest[0] == clusters[1]);
        assert(clusters[0] < clusters[1]);
        lemma_release_of_linked(table, rest, (limit - 1) as nat);
        assert(whole.len() == table.len());
        assert(released(whole, head, limit) == released(
            whole.update(head as int, FREE),
            next_cluster(whole, head),
            (limit - 1) as nat,
        ));
    }
}

/// Chain termination: walking a chain built by allocating `length` clusters
/// visits exactly `length` clusters before it meets the end mark.
pub proof fn lemma_allocated_chain_walk(table: Seq<u32>, length: nat)
    requires
        allocate_outcome(table, length) is Ok,
    ensures
        ({
            let (start, after) = allocate_outcome(table, length)->Ok_0;
            &&& after.len() == table.len()
            &&& chain_clusters(after, start, after.len()).len() == length
            &&& length > 0 ==> chain_clusters(after, start, after.len()) == free_clusters(
                table,
                FIRST_CLUSTER as int,
                length,
            )->Some_0
        }),
{
    if length > 0 {
        lemma_free_clusters(table, FIRST_CLUSTER as int, length);
        let clusters = free_clusters(table, FIRST_CLUSTER as int, length)->Some_0;
        assert(clusters[length - 1] < usable_len(table));
        assert forall|i: int| 0 <= i < clusters.len() implies #[trigger] clusters[i]
            < table.len() by {
            assert(clusters[i] < usable_len(table));
        }
        lemma_linked_frame(table, clusters);
        lemma_chain_of_linked(table, clusters, table.len());
    }
}

/// Allocation and release are inverse: releasing a chain just allocated
/// gives the table back, and with it the number of free clusters.
pub proof fn lemma_allocate_then_release(table: Seq<u32>, length: nat)
    requires
        allocate_outcome(table, length) is Ok,
    ensures
        ({
            let (start, after) = allocate_outcome(table, length)->Ok_0;
            &&& released(after, start, after.len()) == table
            &&& free_count(released(after, start, after.len()), table.len() as int) == free_count(
                table,
                table.len() as int,
            )
        }),
{
    if length > 0 {
        lemma_free_clusters(table, FIRST_CLUSTER as int, length);
        let clusters = free_clusters(table, FIRST_CLUSTER as int, length)->Some_0;
        assert(clusters[length - 1] < usable_len(table));
        assert forall|i: int| 0 <= i < clusters.len() implies #[trigger] clusters[i]
            < table.len() by {
            assert(clusters[i] < usable_len(table));
        }
        lemma_linked_frame(table, clusters);
        lemma_release_of_linked(table, clusters, table.len());
    }
}

/// The kind of an entry and the walk along a chain read alike an entry
/// whose high four bits are zero: behind an entry that ends the chain the
/// walk ends, and behind one that names a cluster the walk goes on at that
/// cluster.
pub proof fn lemma_kind_agrees_with_walk(table: Seq<u32>, cluster: u32)
    requires
        cluster < table.len(),
        table[cluster as int] < 0x1000_0000,
    ensures
        match entry_kind(table[cluster as int]) {
            FATEntry::Free => next_cluster(table, cluster) == 0,
            FATEntry::Reserved => next_cluster(table, cluster) == 1,
            FATEntry::End => is_end(next_cluster(table, cluster)),
            FATEntry::Next(next) => next_cluster(table, cluster) == next && !is_end(next),
        },
{
}

} // verus!
