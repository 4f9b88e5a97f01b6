//! Reading back what was written: after bytes were appended to a file,
//! reading the file gives what it held before, followed by those bytes.

use crate::drivers::block::disk_with;
use crate::fat32::entry::{
    entry_bytes,
    lemma_entry_at_window,
    lemma_entry_round_trip,
    EntryView,
};
use crate::fat32::error::FsError;
use crate::fat32::laws::{
    chain_bytes,
    chain_sound,
    lemma_appended_content,
    lemma_chain_rest,
    lemma_file_position,
    lemma_found_is_live,
    lemma_object_is_apart,
    lemma_position_of,
    lemma_reads_in_chain,
    lemma_search_facts,
    lemma_search_frame,
    lemma_stored_cluster,
    lemma_synced_cluster,
    path_wf,
    search_reads,
    well_formed_along,
};
use crate::fat32::model::{
    append_ok,
    append_plan,
    appended,
    chain_data,
    chunk_len,
    cluster_bytes,
    cluster_data,
    cluster_ok,
    cluster_pos,
    clusters_for,
    file_chain,
    geometry_ok,
    grown,
    lemma_synced_len,
    read_outcome,
    resolve,
    scan_from,
    search_chain,
    search_dir,
    synced,
    traverse_outcome,
    volume_wf,
    write_outcome,
    Located,
    Scan,
    VolumeView,
    SLASH,
};
use crate::fat32::short_name::{has_tail, head_part, tail_part};
use crate::fat32::table::{
    chain_clusters,
    free_clusters,
    is_end,
    lemma_chain_of_linked,
    lemma_free_clusters,
    lemma_linked_frame,
    linked,
    next_cluster,
};
use vstd::prelude::*;

verus! {

/// Whether `chain` is what a walk over `table` from `start` on visits: it
/// starts with `start`, no cluster of it is an end mark, each cluster is
/// followed by the next, and behind the last one the walk ends.
pub open spec fn walks(table: Seq<u32>, start: u32, chain: Seq<u32>) -> bool {
    &&& chain.len() == 0 ==> is_end(start)
    &&& chain.len() > 0 ==> chain[0] == start && is_end(next_cluster(table, chain.last()))
    &&& forall|i: int| 0 <= i < chain.len() ==> !is_end(#[trigger] chain[i])
    &&& forall|i: int|
        0 <= i < chain.len() - 1 ==> next_cluster(table, #[trigger] chain[i]) == chain[i + 1]
}

/// A walk that is not cut short by its limit visits a chain in the sense
/// of `walks`.
pub proof fn lemma_chain_walks(table: Seq<u32>, start: u32, limit: nat)
    requires
        chain_clusters(table, start, limit).len() < limit,
    ensures
        walks(table, start, chain_clusters(table, start, limit)),
    decreases limit,
{
    let chain = chain_clusters(table, start, limit);
    if limit == 0 || is_end(start) {
    } else {
        let next = next_cluster(table, start);
        let rest = chain_clusters(table, next, (limit - 1) as nat);
        assert(chain =~= seq![start] + rest);
        lemma_chain_walks(table, next, (limit - 1) as nat);
        assert forall|i: int| 0 <= i < chain.len() implies !is_end(#[trigger] chain[i]) by {
            if i > 0 {
                assert(chain[i] == rest[i - 1]);
            }
        }
        assert forall|i: int| 0 <= i < chain.len() - 1 implies next_cluster(
            table,
            #[trigger] chain[i],
        ) == chain[i + 1] by {
            if i > 0 {
                assert(chain[i] == rest[i - 1]);
                assert(chain[i + 1] == rest[i]);
            } else {
                if rest.len() > 0 {
                    assert(chain[1] == rest[0]);
                }
            }
        }
        if rest.len() > 0 {
            assert(chain.last() == rest.last());
        }
    }
}

/// A chain in the sense of `walks` is what a walk visits whose limit is
/// not less than the length of the chain.
pub proof fn lemma_walk_gives(table: Seq<u32>, start: u32, chain: Seq<u32>, limit: nat)
    requires
        walks(table, start, chain),
        chain.len() <= limit,
    ensures
        chain_clusters(table, start, limit) == chain,
    decreases chain.len(),
{
    if chain.len() == 0 {
    } else {
        let next = next_cluster(table, start);
        let rest = chain.subrange(1, chain.len() as int);
        assert forall|i: int| 0 <= i < rest.len() implies !is_end(#[trigger] rest[i]) by {
            assert(rest[i] == chain[i + 1]);
        }
        assert forall|i: int| 0 <= i < rest.len() - 1 implies next_cluster(
            table,
            #[trigger] rest[i],
        ) == rest[i + 1] by {
            assert(rest[i] == chain[i + 1]);
            assert(rest[i + 1] == chain[i + 2]);
        }
        if rest.len() > 0 {
            assert(rest[0] == chain[1]);
            assert(rest.last() == chain.last());
        }
        lemma_walk_gives(table, next, rest, (limit - 1) as nat);
        assert(chain_clusters(table, start, limit) =~= chain);
    }
}

/// Clusters that are all different and all below `bound` are not more
/// than `bound`.
pub proof fn lemma_distinct_count(clusters: Seq<u32>, bound: nat)
    requires
        forall|i: int| 0 <= i < clusters.len() ==> #[trigger] clusters[i] < bound,
        forall|i: int, j: int| 0 <= i < j < clusters.len() ==> clusters[i] != clusters[j],
    ensures
        clusters.len() <= bound,
    decreases bound,
{
    if clusters.len() == 0 {
    } else if bound == 0 {
        assert(clusters[0] < bound);
    } else {
        let top = (bound - 1) as u32;
        if exists|k: int| 0 <= k < clusters.len() && clusters[k] == top {
            let k = choose|k: int| 0 <= k < clusters.len() && clusters[k] == top;
            let others = clusters.remove(k);
            assert forall|i: int| 0 <= i < others.len() implies #[trigger] others[i] < bound
                - 1 by {
                if i < k {
                    assert(others[i] == clusters[i]);
                } else {
                    assert(others[i] == clusters[i + 1]);
                }
            }
            assert forall|i: int, j: int| 0 <= i < j < others.len() implies others[i]
                != others[j] by {
                let a = if i < k {
                    i
                } else {
                    i + 1
                };
                let b = if j < k {
                    j
                } else {
                    j + 1
                };
                assert(others[i] == clusters[a]);
                assert(others[j] == clusters[b]);
            }
            lemma_distinct_count(others, (bound - 1) as nat);
        } else {
            assert forall|i: int| 0 <= i < clusters.len() implies #[trigger] clusters[i] < bound
                - 1 by {
                assert(clusters[i] < bound);
            }
            lemma_distinct_count(clusters, (bound - 1) as nat);
        }
    }
}

/// Reading a chain gives the bytes of its clusters, laid end to end, as
/// far as they are wanted: where the clusters of the walk can be
/// transferred and hold at least `wanted` bytes.
pub proof fn lemma_chain_data(v: VolumeView, start: u32, limit: nat, wanted: int)
    requires
        geometry_ok(v.geometry),
        0 <= wanted <= chain_clusters(v.table, start, limit).len() * cluster_bytes(v.geometry),
        forall|k: int|
            0 <= k < chain_clusters(v.table, start, limit).len() ==> cluster_ok(
                v,
                #[trigger] chain_clusters(v.table, start, limit)[k],
            ),
    ensures
        chain_data(v, start, limit, wanted) is Ok,
        chain_data(v, start, limit, wanted)->Ok_0.len() >= wanted,
        chain_data(v, start, limit, wanted)->Ok_0.subrange(0, wanted) == chain_bytes(
            v,
            chain_clusters(v.table, start, limit),
        ).subrange(0, wanted),
    decreases limit,
{
    let size = cluster_bytes(v.geometry);
    let chain = chain_clusters(v.table, start, limit);
    let whole = chain_bytes(v, chain);
    if wanted <= 0 {
        assert(chain_data(v, start, limit, wanted)->Ok_0.subrange(0, wanted) =~= whole.subrange(
            0,
            wanted,
        ));
    } else {
        assert(chain.len() > 0) by (nonlinear_arith)
            requires
                0 < wanted <= chain.len() * size,
                size > 0,
        ;
        let next = next_cluster(v.table, start);
        let rest = chain_clusters(v.table, next, (limit - 1) as nat);
        assert(chain =~= seq![start] + rest);
        assert(chain[0] == start);
        assert(cluster_ok(v, start));
        let first = cluster_data(v, start);
        let left = if wanted - size > 0 {
            wanted - size
        } else {
            0
        };
        assert(left <= rest.len() * size) by (nonlinear_arith)
            requires
                wanted <= (rest.len() + 1) * size,
                left == wanted - size || left == 0,
                size > 0,
                rest.len() >= 0,
        ;
        assert forall|k: int| 0 <= k < rest.len() implies cluster_ok(v, #[trigger] rest[k]) by {
            assert(rest[k] == chain[k + 1]);
        }
        lemma_chain_data(v, next, (limit - 1) as nat, left);
        let tail = chain_data(v, next, (limit - 1) as nat, wanted - size)->Ok_0;
        let behind = chain_bytes(v, rest);
        let got = chain_data(v, start, limit, wanted)->Ok_0;
        assert(got == first + tail);
        assert(whole.len() == chain.len() * size);
        assert(got.subrange(0, wanted) =~= whole.subrange(0, wanted)) by {
            assert forall|p: int| 0 <= p < wanted implies got[p] == whole[p] by {
                lemma_file_position(p, size, chain.len() as int);
                if p < size {
                    lemma_position_of(0, p, size);
                } else {
                    let q = p - size;
                    assert(q < rest.len() * size) by (nonlinear_arith)
                        requires
                            p < wanted,
                            wanted <= (rest.len() + 1) * size,
                            q == p - size,
                    ;
                    lemma_file_position(q, size, rest.len() as int);
                    lemma_position_of(q / size + 1, q % size, size);
                    assert((q / size + 1) * size + q % size == p) by (nonlinear_arith)
                        requires
                            q == (q / size) * size + q % size,
                            q == p - size,
                    ;
                    assert(chain[q / size + 1] == rest[q / size]);
                    assert(tail.subrange(0, left)[q] == behind.subrange(0, left)[q]);
                }
            }
        }
    }
}

/// The clusters that take the bytes of an append that is in order are
/// clusters of the chain and can be transferred.
pub proof fn lemma_append_ok_at(v: VolumeView, chain: Seq<u32>, n: int, pos: int, from: int, p: int)
    requires
        geometry_ok(v.geometry),
        append_ok(v, chain, n, pos, from),
        0 <= from,
        0 <= pos <= p < pos + (n - from),
    ensures
        0 <= p / cluster_bytes(v.geometry) < chain.len(),
        cluster_ok(v, chain[p / cluster_bytes(v.geometry)]),
    decreases n - from,
{
    let size = cluster_bytes(v.geometry);
    let take = chunk_len(v.geometry, pos, n - from);
    let k = pos / size;
    vstd::arithmetic::div_mod::lemma_fundamental_div_mod(pos, size);
    vstd::arithmetic::div_mod::lemma_mod_bound(pos, size);
    assert(k * size == size * k) by (nonlinear_arith);
    if p < pos + take {
        lemma_position_of(k, p - k * size, size);
    } else {
        lemma_append_ok_at(v, chain, n, pos + take, from + take, p);
    }
}

/// Whether the file whose entry names `start` as its first cluster and
/// `size` as its size is in order: its clusters can be transferred, are
/// all different, have an entry in the table that is not free, and hold at
/// least `size` bytes.
pub open spec fn file_sound(v: VolumeView, start: u32, size: int) -> bool {
    let chain = file_chain(v.table, start);
    &&& chain_sound(v, chain)
    &&& forall|k: int|
        0 <= k < chain.len() ==> #[trigger] chain[k] < v.table.len() && v.table[chain[k] as int]
            != 0
    &&& size <= chain.len() * cluster_bytes(v.geometry)
}

/// The first cluster of a file after clusters were added to it: the first
/// cluster added where it had none, else the one it had.
pub open spec fn grown_start(start: u32, kept: Seq<u32>, added: Seq<u32>) -> u32 {
    if kept.len() == 0 && added.len() > 0 {
        added[0]
    } else {
        start
    }
}

/// The clusters of a file that is in order and free clusters that are
/// added to it are all different and fewer than the table's entries, and
/// the table is as it was outside them once they are linked.
pub proof fn lemma_grown_parts(v: VolumeView, start: u32, size: int, count: nat)
    requires
        file_sound(v, start, size),
        free_clusters(v.table, 2, count) is Some,
        file_chain(v.table, start).len() + count > 0,
    ensures
        ({
            let kept = file_chain(v.table, start);
            let added = free_clusters(v.table, 2, count)->Some_0;
            &&& added.len() == count
            &&& (kept + added).len() < v.table.len()
            &&& grown(v.table, kept, added).len() == v.table.len()
            &&& forall|i: int| 0 <= i < kept.len() ==> !added.contains(#[trigger] kept[i])
            &&& forall|i: int| 0 <= i < added.len() ==> #[trigger] added[i] < v.table.len()
            &&& forall|i: int, j: int|
                0 <= i < j < (kept + added).len() ==> (kept + added)[i] != (kept + added)[j]
            &&& forall|c: u32|
                c < v.table.len() && !(kept + added).contains(c) ==> grown(
                    v.table,
                    kept,
                    added,
                )[c as int] == v.table[c as int]
        }),
{
    let t = v.table;
    let len = t.len();
    let kept = file_chain(t, start);
    let added = free_clusters(t, 2, count)->Some_0;
    let all = kept + added;
    let after = grown(t, kept, added);
    lemma_free_clusters(t, 2, count);
    assert forall|i: int| 0 <= i < added.len() implies #[trigger] added[i] < len by {
        assert(added[i] < crate::fat32::table::usable_len(t));
    }
    lemma_linked_frame(t, added);
    assert forall|i: int| 0 <= i < kept.len() implies !added.contains(#[trigger] kept[i]) by {
        if added.contains(kept[i]) {
            let j = choose|j: int| 0 <= j < added.len() && added[j] == kept[i];
            assert(t[added[j] as int] == 0);
        }
    }
    assert forall|i: int, j: int| 0 <= i < j < all.len() implies all[i] != all[j] by {
        if j >= kept.len() && i < kept.len() {
            assert(added.contains(added[j - kept.len()]));
        }
    }
    // none of the clusters is cluster 0, so they are fewer than the entries
    let more = all.push(0u32);
    assert forall|i: int| 0 <= i < more.len() implies #[trigger] more[i] < len by {
        if i < kept.len() {
            assert(more[i] == kept[i]);
        } else if i < all.len() {
            assert(more[i] == added[i - kept.len()]);
        } else {
            assert(all[0] < len);
        }
    }
    assert forall|i: int, j: int| 0 <= i < j < more.len() implies more[i] != more[j] by {
        if j < all.len() {
            assert(more[i] == all[i] && more[j] == all[j]);
        } else {
            if i < kept.len() {
                assert(cluster_ok(v, kept[i]));
            } else {
                assert(more[i] == added[i - kept.len()]);
            }
        }
    }
    lemma_distinct_count(more, len);
    assert forall|c: u32| c < len && !all.contains(c) implies after[c as int] == t[c as int] by {
        if added.contains(c) {
            let j = choose|j: int| 0 <= j < added.len() && added[j] == c;
            assert(all[kept.len() + j] == c);
        }
        if kept.len() > 0 && c == kept.last() {
            assert(all[kept.len() - 1] == c);
        }
    }
}

/// Two chains put together: where a walk over `table` visits `kept`, a
/// walk over `tied` visits `added`, and `tied` is `table` outside `added`,
/// a walk over `tied` with the first cluster of `added` put behind the last
/// of `kept` visits `kept` and then `added`.
pub proof fn lemma_joined_walks(
    table: Seq<u32>,
    tied: Seq<u32>,
    start: u32,
    kept: Seq<u32>,
    added: Seq<u32>,
)
    requires
        kept.len() > 0,
        added.len() > 0,
        walks(table, start, kept),
        walks(tied, added[0], added),
        tied.len() == table.len(),
        added[0] < 0x0FFF_FFF8,
        forall|i: int| 0 <= i < kept.len() ==> #[trigger] kept[i] < table.len(),
        forall|i: int| 0 <= i < kept.len() ==> !added.contains(#[trigger] kept[i]),
        forall|i: int, j: int| 0 <= i < j < kept.len() ==> kept[i] != kept[j],
        forall|i: int| 0 <= i < kept.len() ==> tied[(#[trigger] kept[i]) as int] == table[kept[i] as int],
    ensures
        walks(tied.update(kept.last() as int, added[0]), start, kept + added),
{
    let all = kept + added;
    let after = tied.update(kept.last() as int, added[0]);
    let last = kept.last();
    assert(last == kept[kept.len() - 1]);
    assert forall|i: int| 0 <= i < all.len() implies !is_end(#[trigger] all[i]) by {
        if i < kept.len() {
            assert(all[i] == kept[i]);
        } else {
            assert(all[i] == added[i - kept.len()]);
        }
    }
    assert forall|i: int| 0 <= i < all.len() - 1 implies next_cluster(after, #[trigger] all[i])
        == all[i + 1] by {
        if i < kept.len() - 1 {
            assert(all[i] == kept[i] && all[i + 1] == kept[i + 1]);
            assert(kept[i] != last);
            assert(next_cluster(table, kept[i]) == kept[i + 1]);
        } else if i == kept.len() - 1 {
            assert(all[i] == last && all[i + 1] == added[0]);
        } else {
            let j = i - kept.len();
            assert(all[i] == added[j] && all[i + 1] == added[j + 1]);
            assert(added.contains(added[j]));
            assert(added[j] != last);
            assert(next_cluster(tied, added[j]) == added[j + 1]);
        }
    }
    assert(all.last() == added.last());
    assert(added.contains(added.last()));
    assert(added.last() != last);
    assert(is_end(next_cluster(tied, added.last())));
    assert(all[0] == kept[0]);
}

/// The chain of a file that is in order, once free clusters were added to
/// it, is its old chain followed by the clusters added.
pub proof fn lemma_grown_chain(v: VolumeView, start: u32, size: int, count: nat)
    requires
        file_sound(v, start, size),
        free_clusters(v.table, 2, count) is Some,
        file_chain(v.table, start).len() + count > 0,
    ensures
        ({
            let kept = file_chain(v.table, start);
            let added = free_clusters(v.table, 2, count)->Some_0;
            &&& chain_clusters(
                grown(v.table, kept, added),
                grown_start(start, kept, added),
                v.table.len(),
            ) == kept + added
            &&& grown(v.table, kept, added).len() == v.table.len()
            &&& forall|i: int, j: int|
                0 <= i < j < (kept + added).len() ==> (kept + added)[i] != (kept + added)[j]
            &&& forall|c: u32|
                c < v.table.len() && !(kept + added).contains(c) ==> grown(
                    v.table,
                    kept,
                    added,
                )[c as int] == v.table[c as int]
        }),
{
    let t = v.table;
    let len = t.len();
    let kept = file_chain(t, start);
    let added = free_clusters(t, 2, count)->Some_0;
    let all = kept + added;
    lemma_grown_parts(v, start, size, count);
    if added.len() == 0 {
        assert(all =~= kept);
    } else if kept.len() == 0 {
        assert(all =~= added);
        lemma_free_clusters(t, 2, count);
        lemma_chain_of_linked(t, added, added.len() + 1);
        lemma_chain_walks(linked(t, added), added[0], added.len() + 1);
        lemma_walk_gives(linked(t, added), added[0], added, len);
    } else {
        let tied = linked(t, added);
        lemma_free_clusters(t, 2, count);
        lemma_linked_frame(t, added);
        lemma_chain_of_linked(t, added, added.len() + 1);
        lemma_chain_walks(tied, added[0], added.len() + 1);
        lemma_chain_walks(t, start, len);
        assert(added[0] < crate::fat32::table::usable_len(t));
        assert forall|i: int| 0 <= i < kept.len() implies tied[(#[trigger] kept[i]) as int]
            == t[kept[i] as int] by {
            assert(!added.contains(kept[i]));
        }
        assert forall|i: int, j: int| 0 <= i < j < kept.len() implies kept[i] != kept[j] by {
            assert(all[i] == kept[i] && all[j] == kept[j]);
        }
        lemma_joined_walks(t, tied, start, kept, added);
        lemma_walk_gives(grown(t, kept, added), start, all, len);
    }
}

/// A scan finds an entry again after other bytes were stored in its slot
/// that leave its first byte, its name fields and its attribute as they
/// were.
pub proof fn lemma_scan_keeps(data: Seq<u8>, query: Seq<u8>, at: int, bytes: Seq<u8>, from: int)
    requires
        0 <= from,
        bytes.len() == 32,
        scan_from(data, query, from) == Scan::Found(at),
        bytes.subrange(0, 8) == data.subrange(at, at + 8),
        bytes.subrange(8, 11) == data.subrange(at + 8, at + 11),
        bytes[11] == data[at + 11],
    ensures
        scan_from(disk_with(data, at, bytes), query, from) == Scan::Found(at),
    decreases data.len() - from,
{
    let stored = disk_with(data, at, bytes);
    lemma_found_is_live(data, query, from);
    assert(bytes[0] == bytes.subrange(0, 8)[0]);
    assert(data[at] == data.subrange(at, at + 8)[0]);
    if from == at {
        assert(stored.subrange(at, at + 8) =~= bytes.subrange(0, 8));
        assert(stored.subrange(at + 8, at + 11) =~= bytes.subrange(8, 11));
        assert(stored[at] == bytes[0]);
        assert(stored[at + 11] == bytes[11]);
    } else {
        lemma_found_is_live(data, query, from + 32);
        assert(stored.subrange(from, from + 8) =~= data.subrange(from, from + 8));
        assert(stored.subrange(from + 8, from + 11) =~= data.subrange(from + 8, from + 11));
        assert(stored[from] == data[from]);
        assert(stored[from + 11] == data[from + 11]);
        lemma_scan_keeps(data, query, at, bytes, from + 32);
    }
}

/// What a search finds is what the scan of its cluster finds.
pub proof fn lemma_search_found_scan(v: VolumeView, query: Seq<u8>, cluster: u32, limit: nat)
    ensures
        search_chain(v, query, cluster, limit) matches Ok(Some(found)) ==> scan_from(
            cluster_data(v, found.cluster),
            query,
            0,
        ) == Scan::Found(found.offset),
    decreases limit,
{
    if limit == 0 || is_end(cluster) || !cluster_ok(v, cluster) {
    } else {
        lemma_search_found_scan(v, query, next_cluster(v.table, cluster), (limit - 1) as nat);
    }
}

/// Whether `w` is `v` but for the clusters `changed` and for the slot of
/// the entry at `found`, which holds `entry`: the volumes have the same
/// geometry and size, and every other cluster holds the same bytes and is
/// followed by the same cluster.
pub open spec fn rewritten(
    v: VolumeView,
    w: VolumeView,
    found: Located,
    entry: EntryView,
    changed: Set<u32>,
) -> bool {
    &&& w.geometry == v.geometry
    &&& w.disk.len() == v.disk.len()
    &&& w.table.len() == v.table.len()
    &&& forall|c: u32|
        cluster_ok(v, c) && !changed.contains(c) ==> #[trigger] cluster_data(w, c) == if c
            == found.cluster {
            disk_with(cluster_data(v, c), found.offset, entry_bytes(entry))
        } else {
            cluster_data(v, c)
        }
    &&& forall|c: u32|
        !changed.contains(c) ==> #[trigger] next_cluster(w.table, c) == next_cluster(v.table, c)
}

/// Whether `entry` names the same object as the entry at `found`: it has
/// its name fields and its attribute.
pub open spec fn same_object(entry: EntryView, found: Located) -> bool {
    entry.wf() && entry.name == found.entry.name && entry.ext == found.entry.ext
        && entry.attribute == found.entry.attribute
}

/// A search finds an entry again, where it stood and as it was rewritten,
/// if the clusters of the directory are otherwise as they were.
pub proof fn lemma_search_stays_found(
    v: VolumeView,
    w: VolumeView,
    query: Seq<u8>,
    cluster: u32,
    limit: nat,
    found: Located,
    entry: EntryView,
    changed: Set<u32>,
)
    requires
        search_chain(v, query, cluster, limit) == Ok::<Option<Located>, FsError>(Some(found)),
        rewritten(v, w, found, entry, changed),
        same_object(entry, found),
        forall|c: u32|
            #![trigger chain_clusters(v.table, cluster, limit).contains(c)]
            chain_clusters(v.table, cluster, limit).contains(c) ==> !changed.contains(c),
    ensures
        search_chain(w, query, cluster, limit) == Ok::<Option<Located>, FsError>(
            Some(Located { entry, cluster: found.cluster, offset: found.offset }),
        ),
    decreases limit,
{
    let chain = chain_clusters(v.table, cluster, limit);
    assert(chain[0] == cluster);
    assert(chain.contains(cluster));
    let data = cluster_data(v, cluster);
    let bytes = entry_bytes(entry);
    lemma_search_found_scan(v, query, cluster, limit);
    lemma_search_facts(v, query, cluster, limit);
    lemma_entry_round_trip(entry);
    assert(bytes.subrange(0, 8) =~= entry.name);
    assert(bytes.subrange(8, 11) =~= entry.ext);
    assert(bytes[11] == entry.attribute);
    match scan_from(data, query, 0) {
        Scan::Found(at) => {
            let stored = disk_with(data, at, bytes);
            lemma_found_is_live(data, query, 0);
            lemma_scan_keeps(data, query, at, bytes, 0);
            lemma_entry_at_window(stored, at);
            assert(stored.subrange(at, at + 32) =~= bytes);
        },
        Scan::Exhausted => {
            let next = next_cluster(v.table, cluster);
            let rest = chain_clusters(v.table, next, (limit - 1) as nat);
            assert forall|c: u32| #![trigger rest.contains(c)] rest.contains(c) implies !changed.contains(
                c,
            ) by {
                lemma_chain_rest(v.table, cluster, limit, c);
            }
            lemma_search_stays_found(v, w, query, next, (limit - 1) as nat, found, entry, changed);
        },
        _ => {},
    }
}

/// On a volume that is well formed along a path, the path leads to the
/// object again, where its entry stood and as it was rewritten, after
/// clusters of the object and free clusters were changed and its entry
/// was rewritten.
pub proof fn lemma_entry_stays_found(
    v: VolumeView,
    w: VolumeView,
    path: Seq<u8>,
    dir: u32,
    seen: Set<u32>,
    found: Located,
    entry: EntryView,
    changed: Set<u32>,
)
    requires
        path_wf(v, path, dir, seen),
        resolve(v, path, dir) == Ok::<Option<Located>, FsError>(Some(found)),
        rewritten(v, w, found, entry, changed),
        same_object(entry, found),
        forall|c: u32|
            #![trigger changed.contains(c)]
            changed.contains(c) ==> chain_clusters(
                v.table,
                found.entry.chain(),
                v.table.len(),
            ).contains(c) || next_cluster(v.table, c) == 0,
    ensures
        resolve(w, path, dir) == Ok::<Option<Located>, FsError>(
            Some(Located { entry, cluster: found.cluster, offset: found.offset }),
        ),
    decreases path.len(),
{
    let len = v.table.len();
    let head = head_part(path, SLASH);
    let chain = chain_clusters(v.table, dir, len);
    let object = chain_clusters(v.table, found.entry.chain(), len);
    let first = search_dir(v, dir, head)->Ok_0->Some_0;
    lemma_object_is_apart(v, path, dir, seen, found);
    if has_tail(path, SLASH) {
        let tail = tail_part(path, SLASH);
        let inner = Set::new(|c: u32| seen.contains(c) || chain.contains(c));
        lemma_object_is_apart(v, tail, first.entry.chain(), inner, found);
        assert forall|c: u32| #![trigger chain.contains(c)] chain.contains(c) implies !changed.contains(
            c,
        ) && c != found.cluster by {
            assert(inner.contains(c));
        }
        let reads = search_reads(v, head, dir, len);
        lemma_reads_in_chain(v, head, dir, len);
        assert forall|c: u32| #![trigger reads.contains(c)] reads.contains(c) implies (cluster_ok(
            v,
            c,
        ) ==> cluster_data(w, c) == cluster_data(v, c)) && next_cluster(w.table, c)
            == next_cluster(v.table, c) by {
            assert(chain.contains(c));
        }
        lemma_search_frame(v, w, head, dir, len);
        lemma_entry_stays_found(v, w, tail, first.entry.chain(), inner, found, entry, changed);
    } else {
        assert forall|c: u32| #![trigger chain.contains(c)] chain.contains(c) implies !changed.contains(
            c,
        ) by {
            if changed.contains(c) {
                assert(object.contains(c) || next_cluster(v.table, c) == 0);
            }
        }
        lemma_search_stays_found(v, w, head, dir, len, found, entry, changed);
    }
}

/// Whether the volume is in order for the file at `path`: it is well
/// formed along the path, and the file that the path leads to is in order.
pub open spec fn file_in_order(v: VolumeView, path: Seq<u8>) -> bool {
    well_formed_along(v, path) && match traverse_outcome(v, path) {
        Ok(Some(file)) => file_sound(v, file.entry.chain(), file.entry.size as int),
        _ => true,
    }
}

/// What the file with the entry at `file` holds: as many bytes of its
/// clusters as its size says.
pub open spec fn file_content(v: VolumeView, file: Located) -> Seq<u8> {
    chain_bytes(v, file_chain(v.table, file.entry.chain())).subrange(0, file.entry.size as int)
}

/// As many clusters as hold `bytes` bytes hold them, and one cluster less
/// does not.
pub proof fn lemma_clusters_for(size: int, bytes: int)
    requires
        size > 0,
        bytes >= 0,
    ensures
        ((bytes + size - 1) / size) * size >= bytes,
        ((bytes + size - 1) / size - 1) * size < bytes,
        (bytes + size - 1) / size >= 0,
{
    let x = bytes + size - 1;
    let k = x / size;
    vstd::arithmetic::div_mod::lemma_fundamental_div_mod(x, size);
    vstd::arithmetic::div_mod::lemma_mod_bound(x, size);
    assert(k * size == size * k) by (nonlinear_arith);
    assert((k - 1) * size == k * size - size) by (nonlinear_arith);
    assert(k >= 0) by (nonlinear_arith)
        requires
            x == k * size + x % size,
            0 <= x % size < size,
            x >= 0,
            size > 0,
    ;
}

/// The file that `path` leads to.
pub open spec fn file_at(v: VolumeView, path: Seq<u8>) -> Located {
    traverse_outcome(v, path)->Ok_0->Some_0
}

/// What a plan for appending to a file in order settles: the grown chain is
/// the file's chain followed by the clusters added, holds the file's old
/// bytes and the new ones, and is in order; a walk from the new entry's
/// first cluster visits it; the table is as it was outside that chain; the
/// new entry names the same object; and the cluster of the entry is none
/// of the chain.
pub proof fn lemma_plan_in_order(v: VolumeView, path: Seq<u8>, n: int)
    requires
        volume_wf(v),
        n >= 0,
        append_plan(v, path, n) is Ok,
        file_in_order(v, path),
    ensures
        ({
            let file = file_at(v, path);
            let size = file.entry.size as int;
            let plan = append_plan(v, path, n)->Ok_0;
            let kept = file_chain(v.table, file.entry.chain());
            &&& plan.file == file
            &&& plan.chain == kept + plan.added
            &&& plan.table.len() == v.table.len()
            &&& size + n <= plan.chain.len() * cluster_bytes(v.geometry)
            &&& size <= kept.len() * cluster_bytes(v.geometry)
            &&& chain_sound(v, plan.chain)
            &&& size + n > 0 ==> chain_clusters(plan.table, plan.entry.chain(), v.table.len())
                == plan.chain
            &&& plan.entry.size == size + n
            &&& plan.entry.attribute != 0x10
            &&& same_object(plan.entry, file)
            &&& forall|c: u32|
                !plan.chain.contains(c) ==> #[trigger] next_cluster(plan.table, c) == next_cluster(
                    v.table,
                    c,
                )
            &&& forall|c: u32|
                #![trigger plan.chain.contains(c)]
                plan.chain.contains(c) ==> chain_clusters(
                    v.table,
                    file.entry.chain(),
                    v.table.len(),
                ).contains(c) || next_cluster(v.table, c) == 0
            &&& !plan.chain.contains(file.cluster)
            &&& cluster_ok(v, file.cluster)
            &&& 0 <= file.offset
            &&& file.offset + 32 <= cluster_bytes(v.geometry)
        }),
{
    let g = v.geometry;
    let clb = cluster_bytes(g);
    let t = v.table;
    let len = t.len();
    let file = file_at(v, path);
    let size = file.entry.size as int;
    let total = size + n;
    let start = file.entry.chain();
    let kept = file_chain(t, start);
    let plan = append_plan(v, path, n)->Ok_0;
    let added = plan.added;
    let chain = plan.chain;
    let need = clusters_for(g, total);
    let count = if need > kept.len() {
        need - kept.len()
    } else {
        0
    };
    let object = chain_clusters(t, start, len);
    lemma_clusters_for(clb, total);
    lemma_free_clusters(t, 2, count as nat);
    assert(added.len() == count);
    assert(chain.len() >= need);
    assert(total <= chain.len() * clb) by (nonlinear_arith)
        requires
            need * clb >= total,
            chain.len() >= need,
            clb > 0,
    ;
    lemma_object_is_apart(v, path, g.root_dir_cluster, Set::empty(), file);
    lemma_entry_at_window(cluster_data(v, file.cluster), file.offset);
    if kept.len() + count > 0 {
        lemma_grown_chain(v, start, size, count as nat);
        if kept.len() == 0 {
            let a = added[0];
            assert(((a / 65536) as u16) * 65536 + ((a % 65536) as u16) == a) by (bit_vector);
        }
        assert(plan.entry.chain() == grown_start(start, kept, added));
        assert forall|c: u32| !chain.contains(c) implies #[trigger] next_cluster(plan.table, c)
            == next_cluster(t, c) by {
            if c < len {
                assert(plan.table[c as int] == t[c as int]);
            }
        }
    } else {
        assert(chain.len() == 0);
        assert(total <= 0) by (nonlinear_arith)
            requires
                total <= chain.len() * clb,
                chain.len() == 0,
        ;
    }
    assert forall|k: int| 0 <= k < chain.len() implies cluster_ok(v, #[trigger] chain[k]) by {
        if k < kept.len() {
            assert(chain[k] == kept[k]);
        } else {
            let p = k * clb;
            lemma_position_of(k, 0, clb);
            assert(size <= p < total) by (nonlinear_arith)
                requires
                    p == k * clb,
                    kept.len() <= k < need,
                    size <= kept.len() * clb,
                    (need - 1) * clb < total,
                    clb > 0,
            ;
            lemma_append_ok_at(v, chain, n, size, 0, p);
        }
    }
    assert forall|c: u32| #![trigger chain.contains(c)] chain.contains(c) implies object.contains(
        c,
    ) || next_cluster(t, c) == 0 by {
        let k = choose|k: int| 0 <= k < chain.len() && chain[k] == c;
        if k < kept.len() {
            assert(chain[k] == kept[k]);
            assert(kept.contains(c));
        } else {
            assert(chain[k] == added[k - kept.len()]);
            assert(t[c as int] == 0);
        }
    }
}

/// Where the bytes of a write lie: after `data` was appended to a file in
/// order, the clusters of the grown chain hold, laid end to end, what they
/// held with `data` laid over it at the file's old size; the cluster of the
/// file's entry holds the new entry in its slot; and every other cluster
/// holds what it held.
pub proof fn lemma_write_clusters(v: VolumeView, path: Seq<u8>, data: Seq<u8>)
    requires
        volume_wf(v),
        write_outcome(v, path, data) is Ok,
        file_in_order(v, path),
    ensures
        ({
            let file = file_at(v, path);
            let plan = append_plan(v, path, data.len() as int)->Ok_0;
            let w = write_outcome(v, path, data)->Ok_0;
            &&& w.geometry == v.geometry
            &&& w.table == plan.table
            &&& w.disk.len() == v.disk.len()
            &&& chain_bytes(w, plan.chain) == disk_with(
                chain_bytes(v, plan.chain),
                file.entry.size as int,
                data,
            )
            &&& forall|c: u32|
                cluster_ok(v, c) && !plan.chain.contains(c) ==> #[trigger] cluster_data(w, c)
                    == if c == file.cluster {
                    disk_with(cluster_data(v, c), file.offset, entry_bytes(plan.entry))
                } else {
                    cluster_data(v, c)
                }
        }),
{
    let g = v.geometry;
    let clb = cluster_bytes(g);
    let file = file_at(v, path);
    let size = file.entry.size as int;
    let plan = append_plan(v, path, data.len() as int)->Ok_0;
    let chain = plan.chain;
    let w = write_outcome(v, path, data)->Ok_0;
    let bytes = entry_bytes(plan.entry);
    lemma_plan_in_order(v, path, data.len() as int);
    lemma_entry_round_trip(plan.entry);
    let d1 = if plan.added.len() > 0 {
        synced(v.disk, plan.table, g)
    } else {
        v.disk
    };
    let v1 = VolumeView { disk: d1, ..v };
    lemma_synced_len(v.disk, plan.table, g, g.fat_num as nat);
    assert forall|c: u32| cluster_ok(v, c) implies cluster_ok(v1, c) && #[trigger] cluster_data(
        v1,
        c,
    ) == cluster_data(v, c) by {
        if plan.added.len() > 0 {
            lemma_synced_cluster(v, plan.table, c);
        }
    }
    assert(chain_sound(v1, chain)) by {
        assert forall|k: int| 0 <= k < chain.len() implies cluster_ok(v1, #[trigger] chain[k]) by {
            assert(cluster_ok(v, chain[k]));
        }
    }
    lemma_appended_content(v1, chain, data, size, 0);
    let v2 = VolumeView { disk: appended(d1, g, chain, data, size, 0), ..v };
    assert(data.subrange(0, data.len() as int) =~= data);
    assert(chain_bytes(v1, chain) =~= chain_bytes(v, chain)) by {
        assert forall|p: int| 0 <= p < chain.len() * clb implies chain_bytes(v1, chain)[p]
            == chain_bytes(v, chain)[p] by {
            lemma_file_position(p, clb, chain.len() as int);
            assert(cluster_ok(v, chain[p / clb]));
        }
    }
    assert(w.disk == disk_with(v2.disk, cluster_pos(g, file.cluster, file.offset), bytes));
    assert(cluster_ok(v2, file.cluster));
    assert forall|c: u32| cluster_ok(v, c) implies #[trigger] cluster_data(w, c) == if c
        == file.cluster {
        disk_with(cluster_data(v2, c), file.offset, bytes)
    } else {
        cluster_data(v2, c)
    } by {
        assert(cluster_ok(v2, c));
        lemma_stored_cluster(v2, file.cluster, file.offset, bytes, c);
    }
    assert(chain_bytes(w, chain) =~= chain_bytes(v2, chain)) by {
        assert forall|p: int| 0 <= p < chain.len() * clb implies chain_bytes(w, chain)[p]
            == chain_bytes(v2, chain)[p] by {
            lemma_file_position(p, clb, chain.len() as int);
            assert(cluster_ok(v, chain[p / clb]));
            assert(chain.contains(chain[p / clb]));
        }
    }
    assert forall|c: u32| cluster_ok(v, c) && !chain.contains(c) implies #[trigger] cluster_data(
        w,
        c,
    ) == if c == file.cluster {
        disk_with(cluster_data(v, c), file.offset, bytes)
    } else {
        cluster_data(v, c)
    } by {
        assert(cluster_ok(v1, c));
        assert(cluster_data(v2, c) == cluster_data(v1, c));
    }
}

/// Reading a whole file in order gives what the file holds.
pub proof fn lemma_read_gives_content(v: VolumeView, path: Seq<u8>)
    requires
        geometry_ok(v.geometry),
        traverse_outcome(v, path) is Ok,
        traverse_outcome(v, path)->Ok_0 is Some,
        file_at(v, path).entry.attribute != 0x10,
        file_in_order(v, path),
    ensures
        read_outcome(
            v,
            path,
            file_at(v, path).entry.size as int,
            file_at(v, path).entry.size as int,
        ) == Ok::<Seq<u8>, FsError>(file_content(v, file_at(v, path))),
{
    let clb = cluster_bytes(v.geometry);
    let file = file_at(v, path);
    let size = file.entry.size as int;
    let start = file.entry.chain();
    let kept = file_chain(v.table, start);
    let got = chain_data(v, start, v.table.len(), size)->Ok_0;
    if size > 0 {
        assert(kept.len() > 0) by (nonlinear_arith)
            requires
                0 < size <= kept.len() * clb,
        ;
        lemma_chain_data(v, start, v.table.len(), size);
    } else {
        assert(got.subrange(0, 0) =~= file_content(v, file));
    }
}

/// What was appended is read back: on a volume that is in order for the
/// file at `path`, reading the file after `data` was appended gives what
/// the file held, followed by `data`.
pub proof fn lemma_written_is_read(v: VolumeView, path: Seq<u8>, data: Seq<u8>, n: int, room: int)
    requires
        volume_wf(v),
        write_outcome(v, path, data) is Ok,
        file_in_order(v, path),
        n >= file_at(v, path).entry.size + data.len(),
        room >= file_at(v, path).entry.size + data.len(),
    ensures
        read_outcome(write_outcome(v, path, data)->Ok_0, path, n, room) == Ok::<Seq<u8>, FsError>(
            file_content(v, file_at(v, path)) + data,
        ),
{
    let g = v.geometry;
    let clb = cluster_bytes(g);
    let len = v.table.len();
    let file = file_at(v, path);
    let size = file.entry.size as int;
    let total = size + data.len();
    let kept = file_chain(v.table, file.entry.chain());
    let plan = append_plan(v, path, data.len() as int)->Ok_0;
    let chain = plan.chain;
    let w = write_outcome(v, path, data)->Ok_0;
    let content = file_content(v, file);
    lemma_plan_in_order(v, path, data.len() as int);
    lemma_write_clusters(v, path, data);
    let changed = Set::new(|c: u32| chain.contains(c));
    assert(rewritten(v, w, file, plan.entry, changed));
    lemma_entry_stays_found(v, w, path, g.root_dir_cluster, Set::empty(), file, plan.entry, changed);
    let after_start = plan.entry.chain();
    let got = chain_data(w, after_start, len, total)->Ok_0;
    if total > 0 {
        assert forall|k: int| 0 <= k < chain.len() implies cluster_ok(w, #[trigger] chain[k]) by {
            assert(cluster_ok(v, chain[k]));
        }
        lemma_chain_data(w, after_start, len, total);
        let whole = chain_bytes(w, chain);
        assert(whole.subrange(0, total) =~= content + data) by {
            assert forall|p: int| 0 <= p < size implies whole[p] == content[p] by {
                lemma_file_position(p, clb, chain.len() as int);
                lemma_file_position(p, clb, kept.len() as int);
                assert(chain[p / clb] == kept[p / clb]);
            }
        }
    } else {
        assert(got.subrange(0, 0) =~= content + data);
    }
}

} // verus!
