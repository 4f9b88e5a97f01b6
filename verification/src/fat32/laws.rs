//! Laws of the volume: what holds of any volume across several operations.

use crate::drivers::block::{disk_with, sectors_at};
use crate::fat32::boot::Geometry;
use crate::fat32::entry::{entry_at, entry_bytes, fresh_entry, EntryView};
use crate::fat32::error::FsError;
use crate::fat32::model::{
    appended,
    chunk_len,
    cluster_bytes,
    cluster_data,
    cluster_lba,
    cluster_ok,
    cluster_pos,
    committed,
    create_file_outcome,
    delete_outcome,
    free_slot_chain,
    free_slot_from,
    geometry_ok,
    lemma_cluster_lba_monotonic,
    lemma_synced_len,
    plan_outcome,
    resolve,
    scan_from,
    search_chain,
    search_dir,
    synced,
    synced_upto,
    traverse_outcome,
    volume_wf,
    CreationPlan,
    Located,
    Scan,
    VolumeView,
    SLASH,
};
use crate::fat32::short_name::{
    fields_match,
    first_index,
    has_tail,
    head_part,
    lemma_first_index,
    lemma_first_index_bounds,
    lemma_name_round_trip,
    parse_outcome,
    tail_part,
    too_many_parts,
    valid_short_name,
};
use crate::fat32::table::{
    allocate_outcome,
    chain_clusters,
    is_end,
    next_cluster,
    release_stops,
    released,
};
use vstd::prelude::*;

verus! {

/// First sector of the data clusters.
pub open spec fn data_start(g: Geometry) -> int {
    g.partition_start_lba + g.reserved_sectors + g.fat_num * g.sectors_per_fat
}

/// Writing the table to its copies changes no byte of the data clusters.
pub proof fn lemma_synced_frame(disk: Seq<u8>, table: Seq<u32>, g: Geometry, copies: nat, k: int)
    requires
        copies <= g.fat_num,
        table.len() == g.sectors_per_fat * 128,
        data_start(g) * 512 <= k < disk.len(),
    ensures
        synced_upto(disk, table, g, copies)[k] == disk[k],
    decreases copies,
{
    if copies > 0 {
        lemma_synced_frame(disk, table, g, (copies - 1) as nat, k);
        lemma_synced_len(disk, table, g, (copies - 1) as nat);
        let spf = g.sectors_per_fat as int;
        assert(spf * (copies - 1) + spf <= g.fat_num * spf) by (nonlinear_arith)
            requires
                copies <= g.fat_num,
                spf >= 0,
        ;
    }
}

/// A data cluster holds the same bytes before and after the table was
/// written to its copies.
pub proof fn lemma_synced_cluster(v: VolumeView, table: Seq<u32>, cluster: u32)
    requires
        table.len() == v.geometry.sectors_per_fat * 128,
        cluster_ok(v, cluster),
    ensures
        cluster_data(VolumeView { disk: synced(v.disk, table, v.geometry), ..v }, cluster)
            == cluster_data(v, cluster),
        cluster_ok(VolumeView { disk: synced(v.disk, table, v.geometry), ..v }, cluster),
{
    let g = v.geometry;
    let after = synced(v.disk, table, g);
    lemma_synced_len(v.disk, table, g, g.fat_num as nat);
    let lba = cluster_lba(g, cluster);
    let spc = g.sectors_per_cluster as int;
    assert((cluster - 2) * spc >= 0) by (nonlinear_arith)
        requires
            cluster >= 2,
            spc >= 0,
    ;
    assert forall|k: int| lba * 512 <= k < (lba + spc) * 512 implies #[trigger] after[k]
        == v.disk[k] by {
        lemma_synced_frame(v.disk, table, g, g.fat_num as nat, k);
    }
    assert(sectors_at(after, lba, spc) =~= sectors_at(v.disk, lba, spc));
}

/// After bytes were stored in one cluster, that cluster holds its old bytes
/// with the new ones laid over them, and every other cluster holds what it
/// held.
pub proof fn lemma_stored_cluster(v: VolumeView, cluster: u32, offset: int, bytes: Seq<u8>, other: u32)
    requires
        cluster_ok(v, cluster),
        cluster_ok(v, other),
        0 <= offset,
        offset + bytes.len() <= cluster_bytes(v.geometry),
    ensures
        cluster_data(
            VolumeView {
                disk: disk_with(v.disk, cluster_pos(v.geometry, cluster, offset), bytes),
                ..v
            },
            other,
        ) == if other == cluster {
            disk_with(cluster_data(v, cluster), offset, bytes)
        } else {
            cluster_data(v, other)
        },
{
    let g = v.geometry;
    let spc = g.sectors_per_cluster as int;
    let after = disk_with(v.disk, cluster_pos(g, cluster, offset), bytes);
    let w = VolumeView { disk: after, ..v };
    if other == cluster {
        assert(cluster_data(w, other) =~= disk_with(cluster_data(v, cluster), offset, bytes));
    } else {
        if other < cluster {
            lemma_cluster_lba_monotonic(g, other, cluster);
            assert((cluster - other) * spc >= spc) by (nonlinear_arith)
                requires
                    cluster - other >= 1,
                    spc >= 0,
            ;
        } else {
            lemma_cluster_lba_monotonic(g, cluster, other);
            assert((other - cluster) * spc >= spc) by (nonlinear_arith)
                requires
                    other - cluster >= 1,
                    spc >= 0,
            ;
        }
        assert(cluster_data(w, other) =~= cluster_data(v, other));
    }
}

/// The clusters that a search of a directory reads.
pub open spec fn search_reads(v: VolumeView, query: Seq<u8>, cluster: u32, limit: nat) -> Set<u32>
    decreases limit,
{
    if limit == 0 || is_end(cluster) || !cluster_ok(v, cluster) {
        Set::empty()
    } else {
        match scan_from(cluster_data(v, cluster), query, 0) {
            Scan::Exhausted => search_reads(
                v,
                query,
                next_cluster(v.table, cluster),
                (limit - 1) as nat,
            ).insert(cluster),
            _ => Set::empty().insert(cluster),
        }
    }
}

/// The clusters that resolving a path reads.
pub open spec fn resolve_reads(v: VolumeView, path: Seq<u8>, dir: u32) -> Set<u32>
    decreases path.len(),
{
    let here = search_reads(v, head_part(path, SLASH), dir, v.table.len());
    match search_dir(v, dir, head_part(path, SLASH)) {
        Ok(Some(found)) => if has_tail(path, SLASH) && found.entry.attribute == 0x10 {
            here.union(resolve_reads(v, tail_part(path, SLASH), found.entry.chain()))
        } else {
            here
        },
        _ => here,
    }
}

/// Whether two volumes of the same geometry and size hold the same bytes
/// in, and name the same cluster after, each of the clusters `reads`.
pub open spec fn agree_on(v: VolumeView, w: VolumeView, reads: Set<u32>) -> bool {
    &&& v.geometry == w.geometry
    &&& v.disk.len() == w.disk.len()
    &&& v.table.len() == w.table.len()
    &&& forall|c: u32|
        #![trigger reads.contains(c)]
        reads.contains(c) ==> (cluster_ok(v, c) ==> cluster_data(w, c) == cluster_data(v, c))
            && next_cluster(w.table, c) == next_cluster(v.table, c)
}

/// A search finds the same on two volumes that agree on the clusters that
/// it reads.
pub proof fn lemma_search_frame(v: VolumeView, w: VolumeView, query: Seq<u8>, cluster: u32, limit: nat)
    requires
        agree_on(v, w, search_reads(v, query, cluster, limit)),
    ensures
        search_chain(w, query, cluster, limit) == search_chain(v, query, cluster, limit),
    decreases limit,
{
    if limit == 0 || is_end(cluster) || !cluster_ok(v, cluster) {
    } else {
        let reads = search_reads(v, query, cluster, limit);
        assert(reads.contains(cluster));
        match scan_from(cluster_data(v, cluster), query, 0) {
            Scan::Exhausted => {
                let next = next_cluster(v.table, cluster);
                let rest = search_reads(v, query, next, (limit - 1) as nat);
                assert forall|c: u32| #![trigger rest.contains(c)] rest.contains(c) implies (
                cluster_ok(v, c) ==> cluster_data(w, c) == cluster_data(v, c)) && next_cluster(
                    w.table,
                    c,
                ) == next_cluster(v.table, c) by {
                    assert(reads.contains(c));
                }
                lemma_search_frame(v, w, query, next, (limit - 1) as nat);
            },
            _ => {},
        }
    }
}

/// Resolving a path finds the same on two volumes that agree on the
/// clusters that it reads.
pub proof fn lemma_resolve_frame(v: VolumeView, w: VolumeView, path: Seq<u8>, dir: u32)
    requires
        agree_on(v, w, resolve_reads(v, path, dir)),
    ensures
        resolve(w, path, dir) == resolve(v, path, dir),
    decreases path.len(),
{
    let head = head_part(path, SLASH);
    let here = search_reads(v, head, dir, v.table.len());
    let all = resolve_reads(v, path, dir);
    assert forall|c: u32| #![trigger here.contains(c)] here.contains(c) implies (cluster_ok(v, c)
        ==> cluster_data(w, c) == cluster_data(v, c)) && next_cluster(w.table, c) == next_cluster(
        v.table,
        c,
    ) by {
        assert(all.contains(c));
    }
    lemma_search_frame(v, w, head, dir, v.table.len());
    match search_dir(v, dir, head) {
        Ok(Some(found)) => {
            if has_tail(path, SLASH) && found.entry.attribute == 0x10 {
                let tail = tail_part(path, SLASH);
                let below = resolve_reads(v, tail, found.entry.chain());
                assert forall|c: u32| #![trigger below.contains(c)] below.contains(c) implies (
                cluster_ok(v, c) ==> cluster_data(w, c) == cluster_data(v, c)) && next_cluster(
                    w.table,
                    c,
                ) == next_cluster(v.table, c) by {
                    assert(all.contains(c));
                }
                lemma_resolve_frame(v, w, tail, found.entry.chain());
            }
        },
        _ => {},
    }
}

/// Whether releasing the chain that starts at `start` sets the entry of
/// `cluster` free.
pub open spec fn release_touches(table: Seq<u32>, start: u32, limit: nat, cluster: u32) -> bool
    decreases limit,
{
    if limit == 0 || release_stops(table, start) {
        false
    } else {
        cluster == start || release_touches(
            table.update(start as int, 0),
            next_cluster(table, start),
            (limit - 1) as nat,
            cluster,
        )
    }
}

/// Releasing a chain leaves every entry as it was that it does not touch.
pub proof fn lemma_release_frame(table: Seq<u32>, start: u32, limit: nat, cluster: u32)
    requires
        !release_touches(table, start, limit, cluster),
    ensures
        released(table, start, limit).len() == table.len(),
        next_cluster(released(table, start, limit), cluster) == next_cluster(table, cluster),
    decreases limit,
{
    if limit == 0 || release_stops(table, start) {
    } else {
        lemma_release_frame(
            table.update(start as int, 0),
            next_cluster(table, start),
            (limit - 1) as nat,
            cluster,
        );
    }
}

/// The volume after the entry at `found` was marked deleted and nothing
/// else was done.
pub open spec fn marked_deleted(v: VolumeView, found: Located) -> VolumeView {
    VolumeView {
        disk: disk_with(
            v.disk,
            cluster_pos(v.geometry, found.cluster, found.offset),
            seq![0xE5u8],
        ),
        ..v
    }
}

/// Whether the slot at `offset` of a cluster's bytes holds a live entry of
/// the name asked for.
pub open spec fn slot_matches(data: Seq<u8>, offset: int, query: Seq<u8>) -> bool {
    data[offset] != 0x00 && data[offset] != 0xE5 && data[offset + 11] != 0x0F && fields_match(
        data.subrange(offset, offset + 8),
        data.subrange(offset + 8, offset + 11),
        query,
    )
}

/// A scan of bytes in which no slot holds a live entry of the name asked
/// for finds nothing.
pub proof fn lemma_scan_without_match(data: Seq<u8>, query: Seq<u8>, from: int)
    requires
        0 <= from,
        !too_many_parts(query),
        forall|o: int|
            from <= o && o + 32 <= data.len() && (o - from) % 32 == 0 ==> !#[trigger] slot_matches(
                data,
                o,
                query,
            ),
    ensures
        scan_from(data, query, from) is End || scan_from(data, query, from) is Exhausted,
    decreases data.len() - from,
{
    if from + 32 <= data.len() {
        assert(!slot_matches(data, from, query));
        assert forall|o: int|
            from + 32 <= o && o + 32 <= data.len() && (o - (from + 32)) % 32
                == 0 implies !#[trigger] slot_matches(data, o, query) by {
            assert((o - from) % 32 == 0);
        }
        lemma_scan_without_match(data, query, from + 32);
    }
}

/// Whether the entry at `found` is the one live entry of the name asked for
/// in the clusters of the directory's chain from `cluster` on, all of which
/// can be transferred.
pub open spec fn only_match(v: VolumeView, query: Seq<u8>, found: Located, cluster: u32, limit: nat) -> bool {
    forall|c: u32|
        #![trigger chain_clusters(v.table, cluster, limit).contains(c)]
        chain_clusters(v.table, cluster, limit).contains(c) ==> cluster_ok(v, c) && forall|
            o: int,
        |
            0 <= o && o + 32 <= cluster_bytes(v.geometry) && o % 32 == 0 && #[trigger] slot_matches(
                cluster_data(v, c),
                o,
                query,
            ) ==> c == found.cluster && o == found.offset
}

/// In a directory of which the entry at `found` is the one live entry of a
/// name, a search for that name finds nothing once that entry is marked
/// deleted.
pub proof fn lemma_only_match_is_alone(v: VolumeView, query: Seq<u8>, found: Located, cluster: u32, limit: nat)
    requires
        !too_many_parts(query),
        cluster_ok(v, found.cluster),
        0 <= found.offset,
        found.offset % 32 == 0,
        found.offset + 32 <= cluster_bytes(v.geometry),
        only_match(v, query, found, cluster, limit),
    ensures
        search_chain(marked_deleted(v, found), query, cluster, limit) == Ok::<
            Option<Located>,
            FsError,
        >(None),
    decreases limit,
{
    let marked = marked_deleted(v, found);
    let chain = chain_clusters(v.table, cluster, limit);
    if limit == 0 || is_end(cluster) {
    } else {
        assert(chain[0] == cluster);
        assert(chain.contains(cluster));
        lemma_stored_cluster(v, found.cluster, found.offset, seq![0xE5u8], cluster);
        let data = cluster_data(v, cluster);
        let after = cluster_data(marked, cluster);
        assert forall|o: int|
            0 <= o && o + 32 <= after.len() && (o - 0) % 32 == 0 implies !#[trigger] slot_matches(
            after,
            o,
            query,
        ) by {
            if cluster == found.cluster && o == found.offset {
                assert(after[o] == 0xE5);
            } else {
                if cluster == found.cluster {
                    assert(after.subrange(o, o + 8) =~= data.subrange(o, o + 8));
                    assert(after.subrange(o + 8, o + 11) =~= data.subrange(o + 8, o + 11));
                    assert(after[o] == data[o]);
                    assert(after[o + 11] == data[o + 11]);
                }
                if slot_matches(after, o, query) {
                    assert(slot_matches(data, o, query));
                }
            }
        }
        lemma_scan_without_match(after, query, 0);
        let next = next_cluster(v.table, cluster);
        let rest = chain_clusters(v.table, next, (limit - 1) as nat);
        assert forall|c: u32| #![trigger rest.contains(c)] rest.contains(c) implies chain.contains(
            c,
        ) by {
            let j = choose|j: int| 0 <= j < rest.len() && rest[j] == c;
            assert(chain[j + 1] == c);
        }
        lemma_only_match_is_alone(v, query, found, next, (limit - 1) as nat);
    }
}

/// What a search finds lies in a cluster that can be transferred, at a slot
/// of that cluster, and is found under a name of at most two parts.
pub proof fn lemma_search_facts(v: VolumeView, query: Seq<u8>, cluster: u32, limit: nat)
    ensures
        search_chain(v, query, cluster, limit) matches Ok(Some(found)) ==> cluster_ok(
            v,
            found.cluster,
        ) && 0 <= found.offset && found.offset % 32 == 0 && found.offset + 32 <= cluster_bytes(
            v.geometry,
        ) && !too_many_parts(query) && found.entry == entry_at(
            cluster_data(v, found.cluster),
            found.offset,
        ),
    decreases limit,
{
    if limit == 0 || is_end(cluster) || !cluster_ok(v, cluster) {
    } else {
        lemma_found_is_live(cluster_data(v, cluster), query, 0);
        lemma_search_facts(v, query, next_cluster(v.table, cluster), (limit - 1) as nat);
    }
}

/// A search reads clusters of the chain that it follows only.
pub proof fn lemma_reads_in_chain(v: VolumeView, query: Seq<u8>, cluster: u32, limit: nat)
    ensures
        forall|c: u32|
            #![trigger search_reads(v, query, cluster, limit).contains(c)]
            search_reads(v, query, cluster, limit).contains(c) ==> chain_clusters(
                v.table,
                cluster,
                limit,
            ).contains(c),
    decreases limit,
{
    if limit == 0 || is_end(cluster) || !cluster_ok(v, cluster) {
    } else {
        let chain = chain_clusters(v.table, cluster, limit);
        let next = next_cluster(v.table, cluster);
        let rest = chain_clusters(v.table, next, (limit - 1) as nat);
        assert(chain[0] == cluster);
        lemma_reads_in_chain(v, query, next, (limit - 1) as nat);
        assert forall|c: u32|
            #![trigger search_reads(v, query, cluster, limit).contains(c)]
            search_reads(v, query, cluster, limit).contains(c) implies chain.contains(c) by {
            if c != cluster {
                assert(search_reads(v, query, next, (limit - 1) as nat).contains(c));
                let j = choose|j: int| 0 <= j < rest.len() && rest[j] == c;
                assert(chain[j + 1] == c);
            }
        }
    }
}

/// A cluster of the chain that follows the first cluster of a chain is a
/// cluster of that chain.
pub proof fn lemma_chain_rest(table: Seq<u32>, cluster: u32, limit: nat, c: u32)
    requires
        limit > 0,
        !is_end(cluster),
        chain_clusters(table, next_cluster(table, cluster), (limit - 1) as nat).contains(c),
    ensures
        chain_clusters(table, cluster, limit).contains(c),
{
    let rest = chain_clusters(table, next_cluster(table, cluster), (limit - 1) as nat);
    let chain = chain_clusters(table, cluster, limit);
    let j = choose|j: int| 0 <= j < rest.len() && rest[j] == c;
    assert(chain[j + 1] == c);
}

/// What a search finds lies in a cluster of the chain that it follows.
pub proof fn lemma_found_in_chain(v: VolumeView, query: Seq<u8>, cluster: u32, limit: nat)
    ensures
        search_chain(v, query, cluster, limit) matches Ok(Some(found)) ==> chain_clusters(
            v.table,
            cluster,
            limit,
        ).contains(found.cluster),
    decreases limit,
{
    if limit == 0 || is_end(cluster) || !cluster_ok(v, cluster) {
    } else {
        let next = next_cluster(v.table, cluster);
        assert(chain_clusters(v.table, cluster, limit)[0] == cluster);
        lemma_found_in_chain(v, query, next, (limit - 1) as nat);
        match search_chain(v, query, next, (limit - 1) as nat) {
            Ok(Some(found)) => {
                lemma_chain_rest(v.table, cluster, limit, found.cluster);
            },
            _ => {},
        }
    }
}

/// The free slot that a search gives lies in a cluster of the chain that
/// it follows.
pub proof fn lemma_slot_in_chain(v: VolumeView, cluster: u32, limit: nat)
    ensures
        free_slot_chain(v, cluster, limit) matches Ok(Some((slot_cluster, slot_offset)))
            ==> chain_clusters(v.table, cluster, limit).contains(slot_cluster),
    decreases limit,
{
    if limit == 0 || is_end(cluster) || !cluster_ok(v, cluster) {
    } else {
        let next = next_cluster(v.table, cluster);
        assert(chain_clusters(v.table, cluster, limit)[0] == cluster);
        lemma_slot_in_chain(v, next, (limit - 1) as nat);
        match free_slot_chain(v, next, (limit - 1) as nat) {
            Ok(Some((slot_cluster, slot_offset))) => {
                lemma_chain_rest(v.table, cluster, limit, slot_cluster);
            },
            _ => {},
        }
    }
}

/// Whether `table` is `base` with some of its entries set free.
pub open spec fn partly_released(table: Seq<u32>, base: Seq<u32>) -> bool {
    table.len() == base.len() && forall|i: int|
        0 <= i < base.len() ==> #[trigger] table[i] == base[i] || table[i] == 0
}

/// Releasing a chain touches clusters of that chain only, also where some
/// of its clusters were set free before.
pub proof fn lemma_touches_in_chain(table: Seq<u32>, base: Seq<u32>, start: u32, limit: nat, c: u32)
    requires
        partly_released(table, base),
        release_touches(table, start, limit, c),
    ensures
        chain_clusters(base, start, limit).contains(c),
    decreases limit,
{
    assert(chain_clusters(base, start, limit)[0] == start);
    if c != start {
        let next = next_cluster(table, start);
        let after = table.update(start as int, 0);
        assert(release_touches(after, next, (limit - 1) as nat, c));
        assert(table[start as int] == base[start as int] || table[start as int] == 0);
        assert(next == next_cluster(base, start));
        assert(partly_released(after, base));
        lemma_touches_in_chain(after, base, next, (limit - 1) as nat, c);
        lemma_chain_rest(base, start, limit, c);
    }
}

/// The volume's well-formedness along `path`, from the directory `dir` on,
/// where `seen` holds the clusters of the directories passed before:
/// every cluster of the directory can be transferred, is in use and
/// belongs to none of the directories passed; and the object that the
/// path ends at shares no cluster with the directories on the way.
pub open spec fn path_wf(v: VolumeView, path: Seq<u8>, dir: u32, seen: Set<u32>) -> bool
    decreases path.len(),
{
    let chain = chain_clusters(v.table, dir, v.table.len());
    let head = head_part(path, SLASH);
    &&& forall|c: u32|
        #![trigger chain.contains(c)]
        chain.contains(c) ==> cluster_ok(v, c) && !seen.contains(c) && next_cluster(v.table, c)
            != 0
    &&& match search_dir(v, dir, head) {
        Ok(Some(found)) => if has_tail(path, SLASH) && found.entry.attribute == 0x10 {
            path_wf(
                v,
                tail_part(path, SLASH),
                found.entry.chain(),
                Set::new(|c: u32| seen.contains(c) || chain.contains(c)),
            )
        } else {
            forall|c: u32|
                #![trigger chain_clusters(v.table, found.entry.chain(), v.table.len()).contains(c)]
                chain_clusters(v.table, found.entry.chain(), v.table.len()).contains(c)
                    ==> !seen.contains(c) && !chain.contains(c)
        },
        _ => true,
    }
}

/// The volume's well-formedness along `path`, from the root directory on.
pub open spec fn well_formed_along(v: VolumeView, path: Seq<u8>) -> bool {
    path_wf(v, path, v.geometry.root_dir_cluster, Set::empty())
}

/// Whether, in the directory that holds the object that `path` leads to
/// from `dir` on, no other live entry has the object's name.
pub open spec fn unique_at_end(v: VolumeView, path: Seq<u8>, dir: u32) -> bool
    decreases path.len(),
{
    let head = head_part(path, SLASH);
    match search_dir(v, dir, head) {
        Ok(Some(found)) => if has_tail(path, SLASH) && found.entry.attribute == 0x10 {
            unique_at_end(v, tail_part(path, SLASH), found.entry.chain())
        } else {
            only_match(v, head, found, dir, v.table.len())
        },
        _ => true,
    }
}

/// Whether no other live entry of its directory has the name of the object
/// that `path` leads to.
pub open spec fn name_is_unique(v: VolumeView, path: Seq<u8>) -> bool {
    unique_at_end(v, path, v.geometry.root_dir_cluster)
}

/// On a volume that is well formed along a path, the object that the path
/// leads to is apart from the way to it: its entry lies in a cluster that
/// can be transferred, is in use, and is none of the object's own nor one
/// of a directory passed before, and the object shares no cluster with the
/// directories passed before.
pub proof fn lemma_object_is_apart(v: VolumeView, path: Seq<u8>, dir: u32, seen: Set<u32>, found: Located)
    requires
        path_wf(v, path, dir, seen),
        resolve(v, path, dir) == Ok::<Option<Located>, FsError>(Some(found)),
    ensures
        cluster_ok(v, found.cluster),
        0 <= found.offset,
        found.offset + 32 <= cluster_bytes(v.geometry),
        !seen.contains(found.cluster),
        found.entry == entry_at(cluster_data(v, found.cluster), found.offset),
        next_cluster(v.table, found.cluster) != 0,
        !chain_clusters(v.table, found.entry.chain(), v.table.len()).contains(found.cluster),
        forall|c: u32|
            #![trigger seen.contains(c)]
            seen.contains(c) ==> !chain_clusters(
                v.table,
                found.entry.chain(),
                v.table.len(),
            ).contains(c),
    decreases path.len(),
{
    let len = v.table.len();
    let head = head_part(path, SLASH);
    let chain = chain_clusters(v.table, dir, len);
    let object = chain_clusters(v.table, found.entry.chain(), len);
    let first = search_dir(v, dir, head)->Ok_0->Some_0;
    lemma_search_facts(v, head, dir, len);
    lemma_found_in_chain(v, head, dir, len);
    if has_tail(path, SLASH) {
        let tail = tail_part(path, SLASH);
        let inner = Set::new(|c: u32| seen.contains(c) || chain.contains(c));
        lemma_object_is_apart(v, tail, first.entry.chain(), inner, found);
        assert(!seen.contains(found.cluster)) by {
            if seen.contains(found.cluster) {
                assert(inner.contains(found.cluster));
            }
        }
        assert forall|c: u32| #![trigger seen.contains(c)] seen.contains(c) implies !object.contains(
            c,
        ) by {
            assert(inner.contains(c));
        }
    } else {
        assert(chain.contains(found.cluster));
    }
}

/// On a volume that is well formed along a path, the object that the path
/// leads to is alone on it if no other live entry of its directory has its
/// name: with its entry marked deleted the path leads to nothing, and
/// releasing the object's chain touches no cluster that is read on the
/// way.
pub proof fn lemma_object_is_alone(v: VolumeView, path: Seq<u8>, dir: u32, seen: Set<u32>, found: Located)
    requires
        path_wf(v, path, dir, seen),
        unique_at_end(v, path, dir),
        resolve(v, path, dir) == Ok::<Option<Located>, FsError>(Some(found)),
    ensures
        resolve(marked_deleted(v, found), path, dir) == Ok::<Option<Located>, FsError>(None),
        forall|c: u32|
            #![trigger resolve_reads(marked_deleted(v, found), path, dir).contains(c)]
            resolve_reads(marked_deleted(v, found), path, dir).contains(c) ==> !release_touches(
                v.table,
                found.entry.chain(),
                v.table.len(),
                c,
            ),
    decreases path.len(),
{
    let len = v.table.len();
    let head = head_part(path, SLASH);
    let chain = chain_clusters(v.table, dir, len);
    let marked = marked_deleted(v, found);
    let object = chain_clusters(v.table, found.entry.chain(), len);
    let first = search_dir(v, dir, head)->Ok_0->Some_0;
    let here = search_reads(marked, head, dir, len);
    lemma_object_is_apart(v, path, dir, seen, found);
    lemma_search_facts(v, head, dir, len);
    lemma_reads_in_chain(marked, head, dir, len);
    assert(chain_clusters(marked.table, dir, len) == chain);
    if has_tail(path, SLASH) {
        let tail = tail_part(path, SLASH);
        let inner = Set::new(|c: u32| seen.contains(c) || chain.contains(c));
        lemma_object_is_apart(v, tail, first.entry.chain(), inner, found);
        lemma_object_is_alone(v, tail, first.entry.chain(), inner, found);
        assert(!chain.contains(found.cluster)) by {
            if chain.contains(found.cluster) {
                assert(inner.contains(found.cluster));
            }
        }
        let reads = search_reads(v, head, dir, len);
        lemma_reads_in_chain(v, head, dir, len);
        assert forall|c: u32| #![trigger reads.contains(c)] reads.contains(c) implies (cluster_ok(
            v,
            c,
        ) ==> cluster_data(marked, c) == cluster_data(v, c)) && next_cluster(marked.table, c)
            == next_cluster(v.table, c) by {
            assert(chain.contains(c));
            lemma_stored_cluster(v, found.cluster, found.offset, seq![0xE5u8], c);
        }
        lemma_search_frame(v, marked, head, dir, len);
        assert forall|c: u32|
            #![trigger resolve_reads(marked, path, dir).contains(c)]
            resolve_reads(marked, path, dir).contains(c) implies !release_touches(
            v.table,
            found.entry.chain(),
            len,
            c,
        ) by {
            if here.contains(c) {
                assert(chain.contains(c));
                assert(inner.contains(c));
                if release_touches(v.table, found.entry.chain(), len, c) {
                    lemma_touches_in_chain(v.table, v.table, found.entry.chain(), len, c);
                }
            } else {
                assert(resolve_reads(marked, tail, first.entry.chain()).contains(c));
            }
        }
    } else {
        lemma_only_match_is_alone(v, head, found, dir, len);
        assert(resolve_reads(marked, path, dir) == here);
        assert forall|c: u32|
            #![trigger resolve_reads(marked, path, dir).contains(c)]
            resolve_reads(marked, path, dir).contains(c) implies !release_touches(
            v.table,
            found.entry.chain(),
            len,
            c,
        ) by {
            assert(chain.contains(c));
            if release_touches(v.table, found.entry.chain(), len, c) {
                lemma_touches_in_chain(v.table, v.table, found.entry.chain(), len, c);
                assert(object.contains(c));
            }
        }
    }
}

/// On a volume that is well formed along a path, no cluster that is read
/// on the way is free, and none belongs to the object that the path leads
/// to.
pub proof fn lemma_way_is_apart(v: VolumeView, path: Seq<u8>, dir: u32, seen: Set<u32>, found: Located)
    requires
        path_wf(v, path, dir, seen),
        resolve(v, path, dir) == Ok::<Option<Located>, FsError>(Some(found)),
    ensures
        forall|c: u32|
            #![trigger resolve_reads(v, path, dir).contains(c)]
            resolve_reads(v, path, dir).contains(c) ==> next_cluster(v.table, c) != 0
                && !chain_clusters(v.table, found.entry.chain(), v.table.len()).contains(c),
        forall|c: u32|
            #![trigger seen.contains(c)]
            seen.contains(c) ==> !chain_clusters(
                v.table,
                found.entry.chain(),
                v.table.len(),
            ).contains(c),
    decreases path.len(),
{
    let len = v.table.len();
    let head = head_part(path, SLASH);
    let chain = chain_clusters(v.table, dir, len);
    let object = chain_clusters(v.table, found.entry.chain(), len);
    let first = search_dir(v, dir, head)->Ok_0->Some_0;
    let here = search_reads(v, head, dir, len);
    lemma_reads_in_chain(v, head, dir, len);
    if has_tail(path, SLASH) {
        let tail = tail_part(path, SLASH);
        let inner = Set::new(|c: u32| seen.contains(c) || chain.contains(c));
        lemma_way_is_apart(v, tail, first.entry.chain(), inner, found);
        assert forall|c: u32|
            #![trigger resolve_reads(v, path, dir).contains(c)]
            resolve_reads(v, path, dir).contains(c) implies next_cluster(v.table, c) != 0
            && !object.contains(c) by {
            if here.contains(c) {
                assert(chain.contains(c));
                assert(inner.contains(c));
            } else {
                assert(resolve_reads(v, tail, first.entry.chain()).contains(c));
            }
        }
        assert forall|c: u32| #![trigger seen.contains(c)] seen.contains(c) implies !object.contains(
            c,
        ) by {
            assert(inner.contains(c));
        }
    } else {
        assert(resolve_reads(v, path, dir) == here);
        assert forall|c: u32|
            #![trigger resolve_reads(v, path, dir).contains(c)]
            resolve_reads(v, path, dir).contains(c) implies next_cluster(v.table, c) != 0
            && !object.contains(c) by {
            assert(chain.contains(c));
        }
    }
}

/// A deleted object stays deleted: after the object at `path` was deleted,
/// the path leads to nothing, and deleting it once more fails with
/// `NotFound`, whether a file or a directory is asked for. This holds
/// where no other live entry of the object's directory has its name, on a
/// volume that is well formed along the path.
pub proof fn lemma_deleted_stays_deleted(v: VolumeView, path: Seq<u8>, directory: bool)
    requires
        volume_wf(v),
        delete_outcome(v, path, directory) is Ok,
        name_is_unique(v, path),
        well_formed_along(v, path),
    ensures
        traverse_outcome(delete_outcome(v, path, directory)->Ok_0, path) == Ok::<
            Option<Located>,
            FsError,
        >(None),
        delete_outcome(delete_outcome(v, path, directory)->Ok_0, path, true) == Err::<
            VolumeView,
            FsError,
        >(FsError::NotFound),
        delete_outcome(delete_outcome(v, path, directory)->Ok_0, path, false) == Err::<
            VolumeView,
            FsError,
        >(FsError::NotFound),
{
    let found = traverse_outcome(v, path)->Ok_0->Some_0;
    let marked = marked_deleted(v, found);
    let after = delete_outcome(v, path, directory)->Ok_0;
    let g = v.geometry;
    let table = released(v.table, found.entry.chain(), v.table.len());
    let reads = resolve_reads(marked, path, g.root_dir_cluster);
    lemma_object_is_alone(v, path, g.root_dir_cluster, Set::empty(), found);
    crate::fat32::table::lemma_released_len(v.table, found.entry.chain(), v.table.len());
    lemma_synced_len(marked.disk, table, g, g.fat_num as nat);
    assert forall|c: u32| #![trigger reads.contains(c)] reads.contains(c) implies (cluster_ok(
        marked,
        c,
    ) ==> cluster_data(after, c) == cluster_data(marked, c)) && next_cluster(after.table, c)
        == next_cluster(marked.table, c) by {
        lemma_release_frame(v.table, found.entry.chain(), v.table.len(), c);
        if cluster_ok(marked, c) {
            lemma_synced_cluster(marked, table, c);
        }
    }
    lemma_resolve_frame(marked, after, path, g.root_dir_cluster);
}

/// What a scan finds is a live entry of the name asked for: it starts
/// neither with the end mark nor with the deleted mark, and is no long-name
/// entry.
pub proof fn lemma_found_is_live(data: Seq<u8>, query: Seq<u8>, from: int)
    requires
        0 <= from,
    ensures
        scan_from(data, query, from) matches Scan::Found(at) ==> from <= at && at + 32
            <= data.len() && (at - from) % 32 == 0 && data[at] != 0x00 && data[at] != 0xE5
            && data[at + 11] != 0x0F && !too_many_parts(query) && fields_match(
            data.subrange(at, at + 8),
            data.subrange(at + 8, at + 11),
            query,
        ),
    decreases data.len() - from,
{
    if from + 32 <= data.len() {
        lemma_found_is_live(data, query, from + 32);
    }
}

/// A free slot that a scan finds lies in the cluster, a whole number of
/// slots behind where the scan started, and starts with the end mark or the
/// deleted mark.
pub proof fn lemma_free_slot_bounds(data: Seq<u8>, from: int)
    requires
        0 <= from,
    ensures
        free_slot_from(data, from) matches Some(at) ==> from <= at && at + 32 <= data.len() && (at
            - from) % 32 == 0 && (data[at] == 0x00 || data[at] == 0xE5),
    decreases data.len() - from,
{
    if from + 32 <= data.len() {
        lemma_free_slot_bounds(data, from + 32);
    }
}

/// In a cluster without a free slot a scan that finds no match runs through
/// the whole cluster.
pub proof fn lemma_full_cluster_exhausted(data: Seq<u8>, query: Seq<u8>, from: int)
    requires
        0 <= from,
        free_slot_from(data, from) is None,
        !(scan_from(data, query, from) is Found),
        !(scan_from(data, query, from) is Invalid),
    ensures
        scan_from(data, query, from) is Exhausted,
    decreases data.len() - from,
{
    if from + 32 <= data.len() {
        lemma_full_cluster_exhausted(data, query, from + 32);
    }
}

/// A scan that found no match finds the entry that was stored in the first
/// free slot, if that entry is live and of the name asked for.
pub proof fn lemma_scan_finds_new(data: Seq<u8>, query: Seq<u8>, at: int, entry: Seq<u8>, from: int)
    requires
        0 <= from,
        entry.len() == 32,
        free_slot_from(data, from) == Some(at),
        scan_from(data, query, from) is End || scan_from(data, query, from) is Exhausted,
        !too_many_parts(query),
        entry[0] != 0x00,
        entry[0] != 0xE5,
        entry[11] != 0x0F,
        fields_match(entry.subrange(0, 8), entry.subrange(8, 11), query),
    ensures
        scan_from(disk_with(data, at, entry), query, from) == Scan::Found(at),
    decreases data.len() - from,
{
    let stored = disk_with(data, at, entry);
    lemma_free_slot_bounds(data, from);
    if from == at {
        assert(stored.subrange(at, at + 8) =~= entry.subrange(0, 8));
        assert(stored.subrange(at + 8, at + 11) =~= entry.subrange(8, 11));
        assert(stored[at] == entry[0]);
        assert(stored[at + 11] == entry[11]);
    } else {
        lemma_free_slot_bounds(data, from + 32);
        assert(stored.subrange(from, from + 8) =~= data.subrange(from, from + 8));
        assert(stored.subrange(from + 8, from + 11) =~= data.subrange(from + 8, from + 11));
        assert(stored[from] == data[from]);
        assert(stored[from + 11] == data[from + 11]);
        lemma_scan_finds_new(data, query, at, entry, from + 32);
    }
}

/// The slot that a search for a free slot gives lies in a cluster that can
/// be transferred, and is the first free slot of that cluster.
pub proof fn lemma_free_slot_chain_facts(v: VolumeView, cluster: u32, limit: nat)
    ensures
        free_slot_chain(v, cluster, limit) matches Ok(Some((slot_cluster, slot_offset)))
            ==> cluster_ok(v, slot_cluster) && free_slot_from(cluster_data(v, slot_cluster), 0)
            == Some(slot_offset) && 0 <= slot_offset && slot_offset + 32 <= cluster_bytes(
            v.geometry,
        ),
    decreases limit,
{
    if limit == 0 || is_end(cluster) || !cluster_ok(v, cluster) {
    } else {
        lemma_free_slot_bounds(cluster_data(v, cluster), 0);
        lemma_free_slot_chain_facts(v, next_cluster(v.table, cluster), (limit - 1) as nat);
    }
}

/// Whether an entry is live: it starts neither with the end mark nor with
/// the deleted mark and is no long-name entry.
pub open spec fn live_entry(entry: EntryView) -> bool {
    entry.wf() && entry.name[0] != 0x00 && entry.name[0] != 0xE5 && entry.attribute != 0x0F
}

/// A search that found no object of a name finds the object that was then
/// created under that name: the new entry, where it was stored.
pub proof fn lemma_search_finds_new(v: VolumeView, plan: CreationPlan, query: Seq<u8>, cluster: u32, limit: nat)
    requires
        volume_wf(v),
        free_slot_chain(v, cluster, limit) == Ok::<Option<(u32, int)>, FsError>(
            Some((plan.slot_cluster, plan.slot_offset)),
        ),
        search_chain(v, query, cluster, limit) == Ok::<Option<Located>, FsError>(None),
        allocate_outcome(v.table, 1) == Ok::<(u32, Seq<u32>), FsError>((plan.cluster, plan.table)),
        !too_many_parts(query),
        live_entry(plan.entry),
        fields_match(plan.entry.name, plan.entry.ext, query),
    ensures
        search_chain(committed(v, plan), query, cluster, limit) == Ok::<Option<Located>, FsError>(
            Some(Located { entry: plan.entry, cluster: plan.slot_cluster, offset: plan.slot_offset }),
        ),
    decreases limit,
{
    let g = v.geometry;
    let bytes = entry_bytes(plan.entry);
    let stored = VolumeView {
        disk: disk_with(v.disk, cluster_pos(g, plan.slot_cluster, plan.slot_offset), bytes),
        ..v
    };
    let after = committed(v, plan);
    lemma_free_slot_chain_facts(v, cluster, limit);
    crate::fat32::table::lemma_free_clusters(v.table, 2, 1);
    crate::fat32::entry::lemma_entry_round_trip(plan.entry);
    lemma_synced_len(stored.disk, plan.table, g, g.fat_num as nat);
    assert(plan.table.len() == v.table.len());
    // the search has a cluster to read, or it would have found no slot
    assert(limit > 0 && !is_end(cluster) && cluster_ok(v, cluster));
    let data = cluster_data(v, cluster);
    lemma_stored_cluster(v, plan.slot_cluster, plan.slot_offset, bytes, cluster);
    lemma_synced_cluster(stored, plan.table, cluster);
    assert(cluster_data(after, cluster) == cluster_data(stored, cluster));
    assert(cluster_ok(after, cluster));
    match free_slot_from(data, 0) {
        Some(at) => {
            assert(plan.slot_cluster == cluster && plan.slot_offset == at);
            let new_data = disk_with(data, at, bytes);
            assert(bytes.subrange(0, 8) =~= plan.entry.name);
            assert(bytes.subrange(8, 11) =~= plan.entry.ext);
            assert(bytes[0] == plan.entry.name[0]);
            assert(bytes[11] == plan.entry.attribute);
            lemma_found_is_live(data, query, 0);
            lemma_scan_finds_new(data, query, at, bytes, 0);
            lemma_free_slot_bounds(data, 0);
            crate::fat32::entry::lemma_entry_at_window(new_data, at);
            assert(new_data.subrange(at, at + 32) =~= bytes);
        },
        None => {
            lemma_found_is_live(data, query, 0);
            lemma_full_cluster_exhausted(data, query, 0);
            let next = next_cluster(v.table, cluster);
            lemma_free_slot_chain_facts(v, next, (limit - 1) as nat);
            assert(plan.slot_cluster != cluster);
            assert(cluster_data(after, cluster) == data);
            // the cluster is not the one that was allocated: it is followed by a cluster
            assert(v.table[plan.cluster as int] == 0);
            assert(cluster != plan.cluster) by {
                if cluster == plan.cluster {
                    assert(next == 0);
                    assert(!cluster_ok(v, 0));
                }
            }
            assert(next_cluster(plan.table, cluster) == next);
            lemma_search_finds_new(v, plan, query, next, (limit - 1) as nat);
        },
    }
}

/// Creation and search agree: an object that was created in a directory is
/// found there under its name, with the entry that was made for it: size
/// zero and the attribute given. Names that start with the byte zero are left
/// out: their entry would end the directory.
pub proof fn lemma_created_is_found_in_directory(v: VolumeView, dir_path: Seq<u8>, name: Seq<u8>, attribute: u8)
    requires
        volume_wf(v),
        plan_outcome(v, dir_path, name, attribute) is Ok,
        valid_short_name(name),
        name.len() > 0 ==> name[0] != 0x00,
        attribute != 0x0F,
    ensures
        ({
            let plan = plan_outcome(v, dir_path, name, attribute)->Ok_0;
            &&& search_dir(committed(v, plan), plan.parent, name) == Ok::<
                Option<Located>,
                FsError,
            >(
                Some(
                    Located {
                        entry: plan.entry,
                        cluster: plan.slot_cluster,
                        offset: plan.slot_offset,
                    },
                ),
            )
            &&& plan.entry.size == 0
            &&& plan.entry.attribute == attribute
        }),
{
    let plan = plan_outcome(v, dir_path, name, attribute)->Ok_0;
    lemma_name_round_trip(name);
    lemma_first_index_bounds(name, crate::fat32::short_name::DOT);
    let fields = parse_outcome(name)->Ok_0;
    assert(plan.entry == fresh_entry(fields.0, fields.1, attribute, plan.cluster));
    assert(plan.entry.name[0] != 0x00 && plan.entry.name[0] != 0xE5);
    crate::fat32::table::lemma_free_clusters(v.table, 2, 1);
    assert(plan.table.len() == v.table.len());
    assert(committed(v, plan).table == plan.table);
    lemma_search_finds_new(v, plan, name, plan.parent, v.table.len());
}

/// Resolving a path that goes on behind a slash resolves the front of the
/// path and then, from the directory found, the rest.
pub proof fn lemma_resolve_joined(v: VolumeView, front: Seq<u8>, rest: Seq<u8>, dir: u32)
    ensures
        resolve(v, front + seq![SLASH] + rest, dir) == match resolve(v, front, dir) {
            Err(e) => Err::<Option<Located>, FsError>(e),
            Ok(None) => Ok(None),
            Ok(Some(found)) => if found.entry.attribute != 0x10 {
                Err(FsError::NotADirectory)
            } else {
                resolve(v, rest, found.entry.chain())
            },
        },
    decreases front.len(),
{
    let path = front + seq![SLASH] + rest;
    lemma_first_index_bounds(front, SLASH);
    let i = first_index(front, SLASH) as int;
    assert forall|j: int| 0 <= j < i implies path[j] != SLASH by {
        assert(path[j] == front[j]);
    }
    if has_tail(front, SLASH) {
        assert(path[i] == front[i]);
        lemma_first_index(path, SLASH, i);
        assert(head_part(path, SLASH) =~= head_part(front, SLASH));
        assert(tail_part(path, SLASH) =~= tail_part(front, SLASH) + seq![SLASH] + rest);
        match search_dir(v, dir, head_part(front, SLASH)) {
            Ok(Some(found)) => {
                if found.entry.attribute == 0x10 {
                    lemma_resolve_joined(v, tail_part(front, SLASH), rest, found.entry.chain());
                }
            },
            _ => {},
        }
    } else {
        assert(path[i] == SLASH);
        lemma_first_index(path, SLASH, i);
        assert(head_part(path, SLASH) =~= front);
        assert(head_part(front, SLASH) =~= front);
        assert(tail_part(path, SLASH) =~= rest);
    }
}

/// Resolving a name without slash searches the directory for it.
pub proof fn lemma_resolve_name(v: VolumeView, name: Seq<u8>, dir: u32)
    requires
        forall|i: int| 0 <= i < name.len() ==> name[i] != SLASH,
    ensures
        resolve(v, name, dir) == search_dir(v, dir, name),
{
    lemma_first_index(name, SLASH, name.len() as int);
    assert(head_part(name, SLASH) =~= name);
}

/// The path of the object `name` in the directory `dir_path`: the name
/// alone in the root directory, else the directory's path, a slash and the
/// name.
pub open spec fn joined(dir_path: Seq<u8>, name: Seq<u8>) -> Seq<u8> {
    if dir_path.len() == 0 {
        name
    } else {
        dir_path + seq![SLASH] + name
    }
}

/// Whether the way to the directory `dir_path` reads neither the cluster
/// that holds the new entry nor the cluster that was allocated for the new
/// object.
pub open spec fn undisturbed(v: VolumeView, dir_path: Seq<u8>, plan: CreationPlan) -> bool {
    forall|c: u32|
        #![trigger resolve_reads(v, dir_path, v.geometry.root_dir_cluster).contains(c)]
        resolve_reads(v, dir_path, v.geometry.root_dir_cluster).contains(c) ==> c
            != plan.slot_cluster && c != plan.cluster
}

/// On a volume that is well formed along the path of a directory, the way
/// to the directory is undisturbed by the creation of an object in it.
pub proof fn lemma_way_is_undisturbed(v: VolumeView, dir_path: Seq<u8>, name: Seq<u8>, attribute: u8)
    requires
        dir_path.len() > 0,
        plan_outcome(v, dir_path, name, attribute) is Ok,
        well_formed_along(v, dir_path),
    ensures
        undisturbed(v, dir_path, plan_outcome(v, dir_path, name, attribute)->Ok_0),
{
    let plan = plan_outcome(v, dir_path, name, attribute)->Ok_0;
    let root = v.geometry.root_dir_cluster;
    let dir = traverse_outcome(v, dir_path)->Ok_0->Some_0;
    lemma_way_is_apart(v, dir_path, root, Set::empty(), dir);
    lemma_slot_in_chain(v, plan.parent, v.table.len());
    crate::fat32::table::lemma_free_clusters(v.table, 2, 1);
    assert(v.table[plan.cluster as int] == 0);
}

/// The way to a directory is the same before and after an object was
/// created, if it is undisturbed by the creation.
pub proof fn lemma_created_keeps_way(v: VolumeView, dir_path: Seq<u8>, plan: CreationPlan)
    requires
        volume_wf(v),
        cluster_ok(v, plan.slot_cluster),
        0 <= plan.slot_offset,
        plan.slot_offset + 32 <= cluster_bytes(v.geometry),
        plan.entry.wf(),
        allocate_outcome(v.table, 1) == Ok::<(u32, Seq<u32>), FsError>((plan.cluster, plan.table)),
        undisturbed(v, dir_path, plan),
    ensures
        traverse_outcome(committed(v, plan), dir_path) == traverse_outcome(v, dir_path),
{
    let g = v.geometry;
    let bytes = entry_bytes(plan.entry);
    let stored = VolumeView {
        disk: disk_with(v.disk, cluster_pos(g, plan.slot_cluster, plan.slot_offset), bytes),
        ..v
    };
    let after = committed(v, plan);
    let reads = resolve_reads(v, dir_path, g.root_dir_cluster);
    crate::fat32::table::lemma_free_clusters(v.table, 2, 1);
    crate::fat32::entry::lemma_entry_round_trip(plan.entry);
    lemma_synced_len(stored.disk, plan.table, g, g.fat_num as nat);
    assert forall|c: u32| #![trigger reads.contains(c)] reads.contains(c) implies (cluster_ok(v, c)
        ==> cluster_data(after, c) == cluster_data(v, c)) && next_cluster(after.table, c)
        == next_cluster(v.table, c) by {
        if cluster_ok(v, c) {
            lemma_stored_cluster(v, plan.slot_cluster, plan.slot_offset, bytes, c);
            lemma_synced_cluster(stored, plan.table, c);
        }
    }
    lemma_resolve_frame(v, after, dir_path, g.root_dir_cluster);
}

/// Creation and traversal agree: a file that was created in a directory is
/// found under the directory's path, a slash and its name, or under its
/// name alone in the root directory, as a file of size zero. This holds for
/// a valid 8.3 name without slash that does not start with the byte zero,
/// on a volume that is well formed along the directory's path.
pub proof fn lemma_created_file_is_found(v: VolumeView, dir_path: Seq<u8>, name: Seq<u8>)
    requires
        volume_wf(v),
        create_file_outcome(v, dir_path, name) is Ok,
        valid_short_name(name),
        forall|i: int| 0 <= i < name.len() ==> name[i] != SLASH,
        name.len() > 0 ==> name[0] != 0x00,
        dir_path.len() > 0 ==> well_formed_along(v, dir_path),
    ensures
        ({
            let after = create_file_outcome(v, dir_path, name)->Ok_0;
            let plan = plan_outcome(v, dir_path, name, 0x03)->Ok_0;
            &&& traverse_outcome(after, joined(dir_path, name)) == Ok::<Option<Located>, FsError>(
                Some(
                    Located {
                        entry: plan.entry,
                        cluster: plan.slot_cluster,
                        offset: plan.slot_offset,
                    },
                ),
            )
            &&& plan.entry.name == parse_outcome(name)->Ok_0.0
            &&& plan.entry.ext == parse_outcome(name)->Ok_0.1
            &&& plan.entry.size == 0
            &&& plan.entry.attribute != 0x10
        }),
{
    let plan = plan_outcome(v, dir_path, name, 0x03)->Ok_0;
    let after = committed(v, plan);
    let root = v.geometry.root_dir_cluster;
    lemma_created_is_found_in_directory(v, dir_path, name, 0x03);
    if dir_path.len() == 0 {
        lemma_resolve_name(after, name, root);
    } else {
        lemma_free_slot_chain_facts(v, plan.parent, v.table.len());
        lemma_name_round_trip(name);
        lemma_way_is_undisturbed(v, dir_path, name, 0x03);
        lemma_created_keeps_way(v, dir_path, plan);
        lemma_resolve_joined(after, dir_path, name, root);
        lemma_resolve_name(after, name, plan.parent);
    }
}

/// The bytes of the clusters of `chain`, laid end to end: the byte at
/// position `p` of a file with these clusters.
pub open spec fn chain_bytes(v: VolumeView, chain: Seq<u32>) -> Seq<u8> {
    Seq::new(
        (chain.len() * cluster_bytes(v.geometry)) as nat,
        |p: int|
            cluster_data(v, chain[p / cluster_bytes(v.geometry)])[p % cluster_bytes(v.geometry)],
    )
}

/// Whether the clusters of `chain` can all be transferred and no cluster
/// stands in it twice.
pub open spec fn chain_sound(v: VolumeView, chain: Seq<u32>) -> bool {
    &&& forall|k: int| 0 <= k < chain.len() ==> cluster_ok(v, #[trigger] chain[k])
    &&& forall|i: int, j: int| 0 <= i < j < chain.len() ==> chain[i] != chain[j]
}

/// Position `p` of a file lies in the cluster whose number in the chain is
/// `p` divided by the cluster size, at the offset that is left.
pub proof fn lemma_file_position(p: int, size: int, count: int)
    requires
        size > 0,
        0 <= p < count * size,
    ensures
        0 <= p / size < count,
        0 <= p % size < size,
        p == (p / size) * size + p % size,
{
    vstd::arithmetic::div_mod::lemma_fundamental_div_mod(p, size);
    vstd::arithmetic::div_mod::lemma_mod_bound(p, size);
    let k = p / size;
    assert(k * size == size * k) by (nonlinear_arith);
    assert(0 <= k < count) by (nonlinear_arith)
        requires
            0 <= p < count * size,
            p == k * size + p % size,
            0 <= p % size < size,
            size > 0,
    ;
}

/// A position that lies `o` bytes into cluster number `k` of a file is
/// divided into `k` and `o`.
pub proof fn lemma_position_of(k: int, o: int, size: int)
    requires
        size > 0,
        0 <= o < size,
    ensures
        (k * size + o) / size == k,
        (k * size + o) % size == o,
{
    assert(k * size == size * k) by (nonlinear_arith);
    vstd::arithmetic::div_mod::lemma_fundamental_div_mod_converse(k * size + o, size, k, o);
}

/// What is appended lies where the file's positions are: on a chain of
/// clusters that can be transferred and are all different, the bytes of
/// the chain after `data` was stored from position `pos` on are the bytes
/// before with `data` laid over them at `pos`; the device keeps its size,
/// and every cluster outside the chain holds what it held.
pub proof fn lemma_appended_content(v: VolumeView, chain: Seq<u32>, data: Seq<u8>, pos: int, from: int)
    requires
        geometry_ok(v.geometry),
        chain_sound(v, chain),
        0 <= pos,
        0 <= from <= data.len(),
        pos + data.len() - from <= chain.len() * cluster_bytes(v.geometry),
    ensures
        ({
            let w = VolumeView {
                disk: appended(v.disk, v.geometry, chain, data, pos, from),
                ..v
            };
            &&& w.disk.len() == v.disk.len()
            &&& chain_bytes(w, chain) == disk_with(
                chain_bytes(v, chain),
                pos,
                data.subrange(from, data.len() as int),
            )
            &&& forall|c: u32|
                cluster_ok(v, c) && !chain.contains(c) ==> #[trigger] cluster_data(w, c)
                    == cluster_data(v, c)
        }),
    decreases data.len() - from,
{
    let g = v.geometry;
    let size = cluster_bytes(g);
    let before = chain_bytes(v, chain);
    if from >= data.len() {
        assert(before =~= disk_with(before, pos, data.subrange(from, data.len() as int)));
    } else {
        lemma_file_position(pos, size, chain.len() as int);
        let k = pos / size;
        let off = pos % size;
        let take = chunk_len(g, pos, data.len() - from);
        let chunk = data.subrange(from, from + take);
        let mid = VolumeView {
            disk: disk_with(v.disk, cluster_pos(g, chain[k], off), chunk),
            ..v
        };
        let w = VolumeView { disk: appended(mid.disk, g, chain, data, pos + take, from + take), ..v };
        assert(cluster_ok(v, chain[k]));
        assert forall|c: u32| cluster_ok(v, c) implies cluster_ok(mid, c) && #[trigger] cluster_data(
            mid,
            c,
        ) == if c == chain[k] {
            disk_with(cluster_data(v, c), off, chunk)
        } else {
            cluster_data(v, c)
        } by {
            lemma_stored_cluster(v, chain[k], off, chunk, c);
        }
        assert(chain_sound(mid, chain)) by {
            assert forall|j: int| 0 <= j < chain.len() implies cluster_ok(mid, #[trigger] chain[j]) by {
                assert(cluster_ok(v, chain[j]));
            }
        }
        assert(pos + take <= (k + 1) * size) by (nonlinear_arith)
            requires
                pos == k * size + off,
                take <= size - off,
        ;
        assert((k + 1) * size <= chain.len() * size) by (nonlinear_arith)
            requires
                k < chain.len(),
                size > 0,
        ;
        lemma_appended_content(mid, chain, data, pos + take, from + take);
        let between = chain_bytes(mid, chain);
        assert(between =~= disk_with(before, pos, chunk)) by {
            assert forall|p: int| 0 <= p < before.len() implies between[p] == disk_with(
                before,
                pos,
                chunk,
            )[p] by {
                lemma_file_position(p, size, chain.len() as int);
                let kp = p / size;
                let op = p % size;
                assert(cluster_ok(v, chain[kp]));
                if kp == k {
                } else {
                    if pos <= p < pos + take {
                        lemma_position_of(k, p - k * size, size);
                    }
                }
            }
        }
        assert(chain_bytes(w, chain) =~= disk_with(
            before,
            pos,
            data.subrange(from, data.len() as int),
        ));
        assert forall|c: u32| cluster_ok(v, c) && !chain.contains(c) implies #[trigger] cluster_data(
            w,
            c,
        ) == cluster_data(v, c) by {
            assert(cluster_ok(mid, c));
            assert(cluster_data(mid, c) == cluster_data(v, c));
        }
    }
}

} // verus!
