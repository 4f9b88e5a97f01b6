//! The mathematical model of a mounted volume: what each operation of the
//! driver finds on the volume and what it leaves behind.
//!
//! A volume is the device's bytes, the table mirror and the geometry. Every
//! operation is a function of these; the driver's contracts refer to them.

use crate::drivers::block::{disk_with, sectors_at, sectors_in_range, BlockError};
use crate::fat32::boot::{fat32_identifier, geometry_of, Geometry};
use crate::fat32::entry::{entry_at, entry_bytes, fresh_entry, EntryView};
use crate::fat32::error::FsError;
use crate::fat32::layout::{le16, le32, le32_bytes};
use crate::fat32::short_name::{
    fields_match,
    has_tail,
    head_part,
    parse_outcome,
    tail_part,
    too_many_parts,
};
use crate::fat32::table::{allocate_outcome, chain_clusters, is_end, next_cluster, released};
use vstd::prelude::*;

verus! {

/// The byte that separates the components of a path.
pub const SLASH: u8 = 0x2F;

/// The sector that holds the boot sector: the volume starts behind the
/// master boot record, which is sector 0.
pub const BOOT_SECTOR_LBA: u64 = 1;

/// A mounted volume as a mathematical value.
pub struct VolumeView {
    pub disk: Seq<u8>,
    pub table: Seq<u32>,
    pub geometry: Geometry,
}

/// An entry found in a directory, with the cluster that holds it and its
/// byte offset in that cluster.
pub struct Located {
    pub entry: EntryView,
    pub cluster: u32,
    pub offset: int,
}

/// What a scan of one directory cluster ends with.
pub enum Scan {
    /// A matching entry lies at this offset.
    Found(int),
    /// The directory ends in this cluster.
    End,
    /// The cluster holds no match and does not end the directory.
    Exhausted,
    /// The name asked for is not a name.
    Invalid,
}

/// First sector of cluster `cluster`, for `cluster >= 2`.
pub open spec fn cluster_lba(g: Geometry, cluster: u32) -> int {
    g.partition_start_lba + g.reserved_sectors + g.fat_num * g.sectors_per_fat + (cluster - 2)
        * g.sectors_per_cluster
}

/// Size of a cluster in bytes.
pub open spec fn cluster_bytes(g: Geometry) -> int {
    g.sectors_per_cluster * 512
}

/// First sector of the table's copy number `copy`.
pub open spec fn fat_copy_lba(g: Geometry, copy: int) -> int {
    g.partition_start_lba + g.reserved_sectors + g.sectors_per_fat * copy
}

/// Whether cluster `cluster` can be transferred: it is a data cluster, the
/// volume's sectors are the device's sectors, and the cluster lies on the
/// device.
pub open spec fn cluster_ok(v: VolumeView, cluster: u32) -> bool {
    &&& cluster >= 2
    &&& v.geometry.bytes_per_sector == 512
    &&& v.geometry.sectors_per_cluster >= 1
    &&& sectors_in_range(
        v.disk,
        cluster_lba(v.geometry, cluster),
        v.geometry.sectors_per_cluster as int,
    )
}

/// The bytes of cluster `cluster`.
pub open spec fn cluster_data(v: VolumeView, cluster: u32) -> Seq<u8> {
    sectors_at(v.disk, cluster_lba(v.geometry, cluster), v.geometry.sectors_per_cluster as int)
}

/// Byte position on the device of offset `offset` in cluster `cluster`.
pub open spec fn cluster_pos(g: Geometry, cluster: u32, offset: int) -> int {
    cluster_lba(g, cluster) * 512 + offset
}

/// The bytes that store `table`, each entry in little-endian order.
pub open spec fn table_bytes(table: Seq<u32>) -> Seq<u8> {
    Seq::new(4 * table.len(), |i: int| le32_bytes(table[i / 4])[i % 4])
}

/// The table stored in `bytes`.
pub open spec fn table_of(bytes: Seq<u8>) -> Seq<u32> {
    Seq::new((bytes.len() / 4) as nat, |i: int| le32(bytes, 4 * i) as u32)
}

/// The device after `table` was written to the first `copies` copies.
pub open spec fn synced_upto(disk: Seq<u8>, table: Seq<u32>, g: Geometry, copies: nat) -> Seq<u8>
    decreases copies,
{
    if copies == 0 {
        disk
    } else {
        disk_with(
            synced_upto(disk, table, g, (copies - 1) as nat),
            fat_copy_lba(g, copies - 1) * 512,
            table_bytes(table),
        )
    }
}

/// The device after `table` was written to every copy.
pub open spec fn synced(disk: Seq<u8>, table: Seq<u32>, g: Geometry) -> Seq<u8> {
    synced_upto(disk, table, g, g.fat_num as nat)
}

/// Writing the table to its copies keeps the device's size.
pub proof fn lemma_synced_len(disk: Seq<u8>, table: Seq<u32>, g: Geometry, copies: nat)
    ensures
        synced_upto(disk, table, g, copies).len() == disk.len(),
    decreases copies,
{
    if copies > 0 {
        lemma_synced_len(disk, table, g, (copies - 1) as nat);
    }
}

/// Cluster addresses ascend: of two data clusters the later one starts at a
/// later sector, and the distance between their first sectors is the
/// distance between their numbers times the sectors of a cluster.
pub proof fn lemma_cluster_lba_monotonic(g: Geometry, c1: u32, c2: u32)
    requires
        2 <= c1 < c2,
        g.sectors_per_cluster >= 1,
    ensures
        cluster_lba(g, c2) > cluster_lba(g, c1),
        cluster_lba(g, c2) - cluster_lba(g, c1) == (c2 - c1) * g.sectors_per_cluster,
{
    let spc = g.sectors_per_cluster as int;
    assert((c2 - 2) * spc - (c1 - 2) * spc == (c2 - c1) * spc) by (nonlinear_arith);
    assert((c2 - c1) * spc >= 1) by (nonlinear_arith)
        requires
            c2 - c1 >= 1,
            spc >= 1,
    ;
}

/// Whether a cluster can be transferred depends on the device's size and the
/// geometry alone.
pub proof fn lemma_cluster_ok_same_size(a: VolumeView, b: VolumeView, cluster: u32)
    requires
        a.disk.len() == b.disk.len(),
        a.geometry == b.geometry,
    ensures
        cluster_ok(a, cluster) == cluster_ok(b, cluster),
{
}

/// The volume's invariant: the mirror holds one entry for every four bytes
/// of a table copy, and all copies lie on the device.
pub open spec fn volume_wf(v: VolumeView) -> bool {
    &&& v.table.len() == v.geometry.sectors_per_fat * 128
    &&& sectors_in_range(v.disk, fat_copy_lba(v.geometry, 0), v.geometry.sectors_per_fat as int)
    &&& sectors_in_range(
        v.disk,
        fat_copy_lba(v.geometry, 0),
        v.geometry.fat_num * v.geometry.sectors_per_fat,
    )
}

/// What mounting the volume on a device of these bytes gives.
pub open spec fn mount_outcome(disk: Seq<u8>) -> Result<VolumeView, FsError> {
    if !sectors_in_range(disk, BOOT_SECTOR_LBA as int, 1) {
        Err(FsError::Block(BlockError::Fault))
    } else {
        let boot = sectors_at(disk, BOOT_SECTOR_LBA as int, 1);
        let g = geometry_of(boot);
        let info_lba = g.partition_start_lba + le16(boot, 48);
        if boot[66] != 0x28 && boot[66] != 0x29 {
            Err(FsError::InvalidSignature)
        } else if boot.subrange(82, 90) != fat32_identifier() {
            Err(FsError::NotFat32)
        } else if !sectors_in_range(disk, info_lba, 1) {
            Err(FsError::Block(BlockError::Fault))
        } else if le32(sectors_at(disk, info_lba, 1), 0) != 0x41615252 || le32(
            sectors_at(disk, info_lba, 1),
            484,
        ) != 0x61417272 {
            Err(FsError::InvalidFsInfo)
        } else if !sectors_in_range(disk, fat_copy_lba(g, 0), g.sectors_per_fat as int)
            || !sectors_in_range(disk, fat_copy_lba(g, 0), g.fat_num * g.sectors_per_fat) {
            Err(FsError::Block(BlockError::Fault))
        } else {
            Ok(
                VolumeView {
                    disk,
                    table: table_of(sectors_at(disk, fat_copy_lba(g, 0), g.sectors_per_fat as int)),
                    geometry: g,
                },
            )
        }
    }
}

/// Scans the directory entries of one cluster from offset `at` on for the
/// first live entry, not a long-name entry, whose name matches `query`.
pub open spec fn scan_from(data: Seq<u8>, query: Seq<u8>, at: int) -> Scan
    decreases data.len() - at,
{
    if at < 0 || at + 32 > data.len() {
        Scan::Exhausted
    } else if data[at] == 0x00 {
        Scan::End
    } else if data[at] == 0xE5 || data[at + 11] == 0x0F {
        scan_from(data, query, at + 32)
    } else if too_many_parts(query) {
        Scan::Invalid
    } else if fields_match(data.subrange(at, at + 8), data.subrange(at + 8, at + 11), query) {
        Scan::Found(at)
    } else {
        scan_from(data, query, at + 32)
    }
}

/// Searches the directory whose chain goes on at `cluster` for `query`,
/// reading at most `limit` clusters.
pub open spec fn search_chain(v: VolumeView, query: Seq<u8>, cluster: u32, limit: nat) -> Result<
    Option<Located>,
    FsError,
>
    decreases limit,
{
    if limit == 0 || is_end(cluster) {
        Ok(None)
    } else if !cluster_ok(v, cluster) {
        Err(FsError::Block(BlockError::Fault))
    } else {
        match scan_from(cluster_data(v, cluster), query, 0) {
            Scan::Found(at) => Ok(
                Some(Located { entry: entry_at(cluster_data(v, cluster), at), cluster, offset: at }),
            ),
            Scan::End => Ok(None),
            Scan::Invalid => Err(FsError::InvalidName),
            Scan::Exhausted => search_chain(
                v,
                query,
                next_cluster(v.table, cluster),
                (limit - 1) as nat,
            ),
        }
    }
}

/// Searches the directory that starts at cluster `dir` for `query`.
pub open spec fn search_dir(v: VolumeView, dir: u32, query: Seq<u8>) -> Result<
    Option<Located>,
    FsError,
> {
    search_chain(v, query, dir, v.table.len())
}

/// Resolves `path`, component by component, from directory `dir` on.
pub open spec fn resolve(v: VolumeView, path: Seq<u8>, dir: u32) -> Result<Option<Located>, FsError>
    decreases path.len(),
{
    match search_dir(v, dir, head_part(path, SLASH)) {
        Err(e) => Err(e),
        Ok(None) => Ok(None),
        Ok(Some(found)) => if !has_tail(path, SLASH) {
            Ok(Some(found))
        } else if found.entry.attribute != 0x10 {
            Err(FsError::NotADirectory)
        } else {
            resolve(v, tail_part(path, SLASH), found.entry.chain())
        },
    }
}

/// What traversing `path` from the root directory finds.
pub open spec fn traverse_outcome(v: VolumeView, path: Seq<u8>) -> Result<Option<Located>, FsError> {
    resolve(v, path, v.geometry.root_dir_cluster)
}

/// The contents of the clusters of a chain, gathered until `wanted` bytes
/// are there or the chain ends.
pub open spec fn chain_data(v: VolumeView, cluster: u32, limit: nat, wanted: int) -> Result<
    Seq<u8>,
    FsError,
>
    decreases limit,
{
    if wanted <= 0 || limit == 0 || is_end(cluster) {
        Ok(Seq::empty())
    } else if !cluster_ok(v, cluster) {
        Err(FsError::Block(BlockError::Fault))
    } else {
        match chain_data(
            v,
            next_cluster(v.table, cluster),
            (limit - 1) as nat,
            wanted - cluster_bytes(v.geometry),
        ) {
            Err(e) => Err(e),
            Ok(rest) => Ok(cluster_data(v, cluster) + rest),
        }
    }
}

/// The smaller of two numbers.
pub open spec fn least(a: int, b: int) -> int {
    if a <= b {
        a
    } else {
        b
    }
}

/// What reading the file at `path` gives: the bytes that go to the front of
/// a destination of `room` bytes when at most `n` bytes are asked for.
pub open spec fn read_outcome(v: VolumeView, path: Seq<u8>, n: int, room: int) -> Result<
    Seq<u8>,
    FsError,
> {
    match traverse_outcome(v, path) {
        Err(e) => Err(e),
        Ok(None) => Err(FsError::NotFound),
        Ok(Some(file)) => if file.entry.attribute == 0x10 {
            Err(FsError::IsADirectory)
        } else {
            let wanted = least(least(file.entry.size as int, n), room);
            match chain_data(v, file.entry.chain(), v.table.len(), wanted) {
                Err(e) => Err(e),
                Ok(data) => Ok(data.subrange(0, least(wanted, data.len() as int))),
            }
        },
    }
}

/// The first slot at or after `at` that is unused or deleted.
pub open spec fn free_slot_from(data: Seq<u8>, at: int) -> Option<int>
    decreases data.len() - at,
{
    if at < 0 || at + 32 > data.len() {
        None
    } else if data[at] == 0x00 || data[at] == 0xE5 {
        Some(at)
    } else {
        free_slot_from(data, at + 32)
    }
}

/// The first unused or deleted slot of the directory whose chain goes on at
/// `cluster`: its cluster and offset.
pub open spec fn free_slot_chain(v: VolumeView, cluster: u32, limit: nat) -> Result<
    Option<(u32, int)>,
    FsError,
>
    decreases limit,
{
    if limit == 0 || is_end(cluster) {
        Ok(None)
    } else if !cluster_ok(v, cluster) {
        Err(FsError::Block(BlockError::Fault))
    } else {
        match free_slot_from(cluster_data(v, cluster), 0) {
            Some(at) => Ok(Some((cluster, at))),
            None => free_slot_chain(v, next_cluster(v.table, cluster), (limit - 1) as nat),
        }
    }
}

/// The directory that `dir_path` names: the root for the empty path.
pub open spec fn parent_outcome(v: VolumeView, dir_path: Seq<u8>) -> Result<u32, FsError> {
    if dir_path.len() == 0 {
        Ok(v.geometry.root_dir_cluster)
    } else {
        match traverse_outcome(v, dir_path) {
            Err(e) => Err(e),
            Ok(None) => Err(FsError::NotFound),
            Ok(Some(dir)) => if dir.entry.attribute != 0x10 {
                Err(FsError::NotADirectory)
            } else {
                Ok(dir.entry.chain())
            },
        }
    }
}

/// What is settled before an object is created: the directory, the slot for
/// the new entry, the new entry, and the table after the object's cluster
/// was allocated.
pub struct CreationPlan {
    pub parent: u32,
    pub slot_cluster: u32,
    pub slot_offset: int,
    pub entry: EntryView,
    pub cluster: u32,
    pub table: Seq<u32>,
}

/// What the search for an object named `name` in the directory `parent`
/// gives before an object of that name is created there. No entry bears a
/// name of more than two parts: the directory is not searched for one.
pub open spec fn present_outcome(v: VolumeView, parent: u32, name: Seq<u8>) -> Result<
    Option<Located>,
    FsError,
> {
    if too_many_parts(name) {
        Ok(None)
    } else {
        search_dir(v, parent, name)
    }
}

/// Plans the creation of an object named `name` with attribute `attribute`
/// in the directory `dir_path`. The directory is found first, then the
/// directory is searched for an object of that name, then for a free slot;
/// only then is the name looked at, and the cluster picked last.
pub open spec fn plan_outcome(v: VolumeView, dir_path: Seq<u8>, name: Seq<u8>, attribute: u8) -> Result<
    CreationPlan,
    FsError,
> {
    match parent_outcome(v, dir_path) {
        Err(e) => Err(e),
        Ok(parent) => match present_outcome(v, parent, name) {
            Err(e) => Err(e),
            Ok(Some(_)) => Err(FsError::AlreadyExists),
            Ok(None) => match free_slot_chain(v, parent, v.table.len()) {
                Err(e) => Err(e),
                Ok(None) => Err(FsError::NoFreeEntry),
                Ok(Some((slot_cluster, slot_offset))) => match parse_outcome(name) {
                    Err(e) => Err(e),
                    Ok((base, ext)) => match allocate_outcome(v.table, 1) {
                        Err(e) => Err(e),
                        Ok((cluster, table)) => Ok(
                            CreationPlan {
                                parent,
                                slot_cluster,
                                slot_offset,
                                entry: fresh_entry(base, ext, attribute, cluster),
                                cluster,
                                table,
                            },
                        ),
                    },
                },
            },
        },
    }
}

/// The volume after a planned object was created: the entry stands in its
/// slot and the new table is on every copy.
pub open spec fn committed(v: VolumeView, plan: CreationPlan) -> VolumeView {
    VolumeView {
        disk: synced(
            disk_with(
                v.disk,
                cluster_pos(v.geometry, plan.slot_cluster, plan.slot_offset),
                entry_bytes(plan.entry),
            ),
            plan.table,
            v.geometry,
        ),
        table: plan.table,
        geometry: v.geometry,
    }
}

/// What creating the file `name` in the directory `dir_path` gives.
pub open spec fn create_file_outcome(v: VolumeView, dir_path: Seq<u8>, name: Seq<u8>) -> Result<
    VolumeView,
    FsError,
> {
    match plan_outcome(v, dir_path, name, 0x03) {
        Err(e) => Err(e),
        Ok(plan) => Ok(committed(v, plan)),
    }
}

/// The name field of the entry `.`.
pub open spec fn dot_name() -> Seq<u8> {
    seq![0x2Eu8, 0x20u8, 0x20u8, 0x20u8, 0x20u8, 0x20u8, 0x20u8, 0x20u8]
}

/// The name field of the entry `..`.
pub open spec fn dotdot_name() -> Seq<u8> {
    seq![0x2Eu8, 0x2Eu8, 0x20u8, 0x20u8, 0x20u8, 0x20u8, 0x20u8, 0x20u8]
}

/// An extension field of spaces.
pub open spec fn blank_ext() -> Seq<u8> {
    seq![0x20u8, 0x20u8, 0x20u8]
}

/// The first cluster of a new directory: the entries `.` and `..`, which
/// name the directory itself and its parent, then zeros.
pub open spec fn directory_start(g: Geometry, cluster: u32, parent: u32) -> Seq<u8> {
    Seq::new(
        cluster_bytes(g) as nat,
        |i: int|
            if i < 32 {
                entry_bytes(fresh_entry(dot_name(), blank_ext(), 0x10, cluster))[i]
            } else if i < 64 {
                entry_bytes(fresh_entry(dotdot_name(), blank_ext(), 0x10, parent))[i - 32]
            } else {
                0u8
            },
    )
}

/// What creating the directory `name` in the directory `dir_path` gives.
pub open spec fn create_directory_outcome(v: VolumeView, dir_path: Seq<u8>, name: Seq<u8>) -> Result<
    VolumeView,
    FsError,
> {
    match plan_outcome(v, dir_path, name, 0x10) {
        Err(e) => Err(e),
        Ok(plan) => if !cluster_ok(v, plan.cluster) {
            Err(FsError::Block(BlockError::Fault))
        } else {
            let made = committed(v, plan);
            Ok(
                VolumeView {
                    disk: disk_with(
                        made.disk,
                        cluster_pos(v.geometry, plan.cluster, 0),
                        directory_start(v.geometry, plan.cluster, plan.parent),
                    ),
                    ..made
                },
            )
        },
    }
}

/// What deleting the object at `path` gives, where a directory is to be
/// deleted if `directory` holds and a file if not: the entry's first byte
/// marks it deleted, its chain is released, and the new table is on every
/// copy.
pub open spec fn delete_outcome(v: VolumeView, path: Seq<u8>, directory: bool) -> Result<
    VolumeView,
    FsError,
> {
    match traverse_outcome(v, path) {
        Err(e) => Err(e),
        Ok(None) => Err(FsError::NotFound),
        Ok(Some(found)) => if (found.entry.attribute == 0x10) != directory {
            Err(FsError::WrongType)
        } else {
            let table = released(v.table, found.entry.chain(), v.table.len());
            Ok(
                VolumeView {
                    disk: synced(
                        disk_with(
                            v.disk,
                            cluster_pos(v.geometry, found.cluster, found.offset),
                            seq![0xE5u8],
                        ),
                        table,
                        v.geometry,
                    ),
                    table,
                    geometry: v.geometry,
                },
            )
        },
    }
}

/// Whether clusters of this geometry can be transferred at all: the
/// volume's sectors are the device's sectors, and a cluster holds at least
/// one of them.
pub open spec fn geometry_ok(g: Geometry) -> bool {
    g.bytes_per_sector == 512 && g.sectors_per_cluster >= 1
}

/// The clusters of a file whose entry names `start` as its first cluster,
/// in order: none where `start` is no data cluster, as in the entry of a
/// file that has no cluster yet.
pub open spec fn file_chain(table: Seq<u32>, start: u32) -> Seq<u32> {
    if start < 2 {
        Seq::empty()
    } else {
        chain_clusters(table, start, table.len())
    }
}

/// Number of clusters that hold `bytes` bytes.
pub open spec fn clusters_for(g: Geometry, bytes: int) -> int {
    (bytes + cluster_bytes(g) - 1) / cluster_bytes(g)
}

/// Number of bytes, of `left` bytes, that go to file position `pos` and
/// what follows it in the same cluster.
pub open spec fn chunk_len(g: Geometry, pos: int, left: int) -> int {
    least(cluster_bytes(g) - pos % cluster_bytes(g), left)
}

/// The table after `added` was linked into a chain and put behind the
/// chain `kept`.
pub open spec fn grown(table: Seq<u32>, kept: Seq<u32>, added: Seq<u32>) -> Seq<u32> {
    if added.len() == 0 {
        table
    } else if kept.len() == 0 {
        crate::fat32::table::linked(table, added)
    } else {
        crate::fat32::table::linked(table, added).update(kept.last() as int, added[0])
    }
}

/// Whether the clusters of `chain` that take the bytes from number `from`
/// on of `n` bytes, the next of which goes to file position `pos`, are
/// there and can be transferred.
pub open spec fn append_ok(v: VolumeView, chain: Seq<u32>, n: int, pos: int, from: int) -> bool
    decreases n - from,
{
    let take = chunk_len(v.geometry, pos, n - from);
    if from < 0 || from >= n {
        true
    } else if take <= 0 || pos < 0 || pos / cluster_bytes(v.geometry) >= chain.len() {
        false
    } else {
        cluster_ok(v, chain[pos / cluster_bytes(v.geometry)]) && append_ok(
            v,
            chain,
            n,
            pos + take,
            from + take,
        )
    }
}

/// The device after the bytes of `data` from number `from` on were stored
/// in the file whose clusters are `chain`, the next byte at file position
/// `pos`: the byte at position `p` of a file lies at offset `p` modulo the
/// cluster size of the cluster number `p` divided by the cluster size.
pub open spec fn appended(
    disk: Seq<u8>,
    g: Geometry,
    chain: Seq<u32>,
    data: Seq<u8>,
    pos: int,
    from: int,
) -> Seq<u8>
    decreases data.len() - from,
{
    let take = chunk_len(g, pos, data.len() - from);
    if from < 0 || from >= data.len() || take <= 0 || pos < 0 || pos / cluster_bytes(g)
        >= chain.len() {
        disk
    } else {
        appended(
            disk_with(
                disk,
                cluster_pos(g, chain[pos / cluster_bytes(g)], pos % cluster_bytes(g)),
                data.subrange(from, from + take),
            ),
            g,
            chain,
            data,
            pos + take,
            from + take,
        )
    }
}

/// What is settled before bytes are appended to a file: where its entry
/// lies, the clusters of the file once its chain has grown, how many of
/// them it had, the clusters added, the table after they were linked, and
/// the file's new entry.
pub struct AppendPlan {
    pub file: Located,
    pub chain: Seq<u32>,
    pub kept: nat,
    pub added: Seq<u32>,
    pub table: Seq<u32>,
    pub entry: EntryView,
}

/// The entry of a file after `n` bytes were appended: the size has grown,
/// and a file that had no cluster names the first cluster added.
pub open spec fn appended_entry(entry: EntryView, kept: nat, added: Seq<u32>, n: int) -> EntryView {
    if kept == 0 && added.len() > 0 {
        EntryView {
            size: (entry.size + n) as u32,
            high_first_cluster: (added[0] / 65536) as u16,
            low_first_entry_cluster: (added[0] % 65536) as u16,
            ..entry
        }
    } else {
        EntryView { size: (entry.size + n) as u32, ..entry }
    }
}

/// Plans appending `n` bytes to the file at `path`: the chain grows by as
/// many clusters as it lacks to hold the file's old size and the `n` bytes.
pub open spec fn append_plan(v: VolumeView, path: Seq<u8>, n: int) -> Result<AppendPlan, FsError> {
    match traverse_outcome(v, path) {
        Err(e) => Err(e),
        Ok(None) => Err(FsError::NotFound),
        Ok(Some(file)) => {
            let kept = file_chain(v.table, file.entry.chain());
            let need = clusters_for(v.geometry, file.entry.size + n);
            let count = if need > kept.len() {
                need - kept.len()
            } else {
                0
            };
            if file.entry.attribute == 0x10 {
                Err(FsError::IsADirectory)
            } else if file.entry.size + n > u32::MAX {
                Err(FsError::OutOfSpace)
            } else if !geometry_ok(v.geometry) {
                Err(FsError::Block(BlockError::Fault))
            } else if count > 0 && kept.len() > 0 && kept.last() >= v.table.len() {
                Err(FsError::Block(BlockError::Fault))
            } else {
                match crate::fat32::table::free_clusters(v.table, 2, count as nat) {
                    None => Err(FsError::OutOfSpace),
                    Some(added) => if !append_ok(v, kept + added, n, file.entry.size as int, 0) {
                        Err(FsError::Block(BlockError::Fault))
                    } else {
                        Ok(
                            AppendPlan {
                                file,
                                chain: kept + added,
                                kept: kept.len(),
                                added,
                                table: grown(v.table, kept, added),
                                entry: appended_entry(file.entry, kept.len(), added, n),
                            },
                        )
                    },
                }
            }
        },
    }
}

/// What appending `data` to the file at `path` gives: the chain grows by
/// the clusters that it lacks, each byte is stored at its position behind
/// the file's old end, and the entry's size grows by the number of bytes.
pub open spec fn write_outcome(v: VolumeView, path: Seq<u8>, data: Seq<u8>) -> Result<
    VolumeView,
    FsError,
> {
    match append_plan(v, path, data.len() as int) {
        Err(e) => Err(e),
        Ok(plan) => {
            let g = v.geometry;
            let d1 = if plan.added.len() > 0 {
                synced(v.disk, plan.table, g)
            } else {
                v.disk
            };
            let d2 = appended(d1, g, plan.chain, data, plan.file.entry.size as int, 0);
            let d3 = disk_with(
                d2,
                cluster_pos(g, plan.file.cluster, plan.file.offset),
                entry_bytes(plan.entry),
            );
            Ok(VolumeView { disk: d3, table: plan.table, geometry: g })
        },
    }
}

} // verus!
