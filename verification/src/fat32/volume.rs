//! The FAT32 volume driver: mounting a volume and working on its files and
//! directories by path.

use crate::drivers::block::{disk_with, BlockDevice, BlockError};
use crate::fat32::boot::{geometry_of, BootSector, ExtendedBootRecord, FSInfoMain, Geometry};
use crate::fat32::entry::{
    entry_at,
    entry_bytes,
    DirectoryEntry,
    ATTR_DIRECTORY,
    ATTR_FILE,
    ATTR_LONG_NAME,
    MARK_DELETED,
    MARK_END,
};
use crate::fat32::error::FsError;
use crate::fat32::layout::{le32_bytes, lemma_mul_bound, overlay, push_le32, read_le32};
use crate::fat32::model::{
    append_ok,
    append_plan,
    appended,
    blank_ext,
    chain_data,
    chunk_len,
    cluster_bytes,
    cluster_data,
    cluster_lba,
    cluster_ok,
    cluster_pos,
    clusters_for,
    committed,
    create_directory_outcome,
    create_file_outcome,
    delete_outcome,
    directory_start,
    fat_copy_lba,
    file_chain,
    free_slot_chain,
    free_slot_from,
    geometry_ok,
    grown,
    least,
    lemma_cluster_ok_same_size,
    lemma_synced_len,
    mount_outcome,
    parent_outcome,
    plan_outcome,
    read_outcome,
    resolve,
    scan_from,
    search_chain,
    search_dir,
    synced,
    synced_upto,
    table_bytes,
    table_of,
    traverse_outcome,
    volume_wf,
    write_outcome,
    AppendPlan,
    CreationPlan,
    Located,
    Scan,
    VolumeView,
    BOOT_SECTOR_LBA,
    SLASH,
};
use crate::fat32::short_name::{find_byte, head_part, split_name, tail_part};
use crate::fat32::table::{
    allocate_outcome,
    lemma_free_clusters,
    lemma_linked_frame,
    lemma_released_len,
    released,
    FATChainFollower,
    FAT,
};
use vstd::prelude::*;
use vstd::string::StringSliceAdditionalSpecFns;

verus! {

/// A mounted FAT32 volume: the device, the table mirror and the geometry.
pub struct FAT32 {
    device: BlockDevice,
    fat_processor: FAT,
    partition_start_lba: u32,
    reserved_sectors: u16,
    sectors_per_cluster: u8,
    root_dir_num: u16,
    total_sectors: u32,
    bytes_per_sector: u16,
    root_dir_cluster: u32,
}

impl View for FAT32 {
    type V = VolumeView;

    closed spec fn view(&self) -> VolumeView {
        VolumeView {
            disk: self.device@,
            table: self.fat_processor.table@,
            geometry: Geometry {
                partition_start_lba: self.partition_start_lba,
                reserved_sectors: self.reserved_sectors,
                sectors_per_cluster: self.sectors_per_cluster,
                bytes_per_sector: self.bytes_per_sector,
                fat_num: self.fat_processor.fat_num,
                sectors_per_fat: self.fat_processor.sectors_per_fat,
                root_dir_cluster: self.root_dir_cluster,
                root_dir_num: self.root_dir_num,
                total_sectors: self.total_sectors,
            },
        }
    }
}

/// What a scan of one directory cluster ends with.
pub enum ScanStep {
    /// A matching entry lies at this offset.
    Found(usize, DirectoryEntry),
    /// The directory ends in this cluster.
    End,
    /// The cluster holds no match and does not end the directory.
    Exhausted,
    /// The name asked for is not a name.
    Invalid,
}

/// What is settled before an object is created.
pub struct ObjectPlan {
    pub parent: u32,
    pub slot_cluster: u32,
    pub slot_offset: usize,
    pub entry: DirectoryEntry,
    pub cluster: u32,
}

/// What is settled before bytes are appended to a file.
pub struct AppendWork {
    /// The file's new entry.
    pub entry: DirectoryEntry,
    pub entry_cluster: u32,
    pub entry_offset: u64,
    /// The file's old size.
    pub size: u32,
    /// The clusters of the file once its chain has grown.
    pub chain: Vec<u32>,
    /// How many clusters the file had.
    pub kept: usize,
    /// The clusters added.
    pub added: Vec<u32>,
}

/// Whether a scan's result is what the model says.
pub open spec fn same_scan(step: ScanStep, data: Seq<u8>, scan: Scan) -> bool {
    match scan {
        Scan::Found(at) => step matches ScanStep::Found(offset, entry) && offset == at && entry@
            == entry_at(data, at),
        Scan::End => step is End,
        Scan::Exhausted => step is Exhausted,
        Scan::Invalid => step is Invalid,
    }
}

/// Whether a search's result is what the model says.
pub open spec fn same_search(
    result: Result<Option<(DirectoryEntry, u32, u64)>, FsError>,
    outcome: Result<Option<Located>, FsError>,
) -> bool {
    match outcome {
        Err(e) => result is Err && result->Err_0 == e,
        Ok(None) => result is Ok && result->Ok_0 is None,
        Ok(Some(found)) => result is Ok && result->Ok_0 is Some && result->Ok_0->Some_0.0@
            == found.entry && result->Ok_0->Some_0.1 == found.cluster && result->Ok_0->Some_0.2
            == found.offset,
    }
}

/// Whether a plan is what the model says.
pub open spec fn same_plan(plan: ObjectPlan, model: CreationPlan) -> bool {
    &&& plan.parent == model.parent
    &&& plan.slot_cluster == model.slot_cluster
    &&& plan.slot_offset == model.slot_offset
    &&& plan.entry@ == model.entry
    &&& plan.cluster == model.cluster
}

/// Whether a plan for appending is what the model says.
pub open spec fn same_append(work: AppendWork, model: AppendPlan) -> bool {
    &&& work.entry@ == model.entry
    &&& work.entry_cluster == model.file.cluster
    &&& work.entry_offset == model.file.offset
    &&& work.size == model.file.entry.size
    &&& work.chain@ == model.chain
    &&& work.kept == model.kept
    &&& work.added@ == model.added
}

/// Decodes the table stored in `bytes`.
pub fn decode_table(bytes: &[u8]) -> (table: Vec<u32>)
    ensures
        table@ == table_of(bytes@),
{
    let total: usize = bytes.len();
    let count: usize = total / 4;
    let mut table: Vec<u32> = Vec::new();
    let mut i: usize = 0;
    while i < count
        invariant
            i <= count,
            total == bytes@.len(),
            count == bytes@.len() / 4,
            table@.len() == i,
            forall|j: int| 0 <= j < i ==> table@[j] == table_of(bytes@)[j],
        decreases count - i,
    {
        table.push(read_le32(bytes, 4 * i));
        i += 1;
    }
    assert(table@ =~= table_of(bytes@));
    table
}

/// Encodes `table`, each entry in little-endian order.
pub fn encode_table(table: &Vec<u32>) -> (bytes: Vec<u8>)
    ensures
        bytes@ == table_bytes(table@),
{
    let count: usize = table.len();
    let mut bytes: Vec<u8> = Vec::new();
    let mut i: usize = 0;
    while i < count
        invariant
            i <= count,
            count == table@.len(),
            bytes@.len() == 4 * i,
            forall|j: int| 0 <= j < 4 * i ==> bytes@[j] == table_bytes(table@)[j],
        decreases count - i,
    {
        let ghost before = bytes@;
        push_le32(&mut bytes, table[i]);
        assert forall|j: int| 0 <= j < 4 * (i + 1) implies bytes@[j] == table_bytes(table@)[j] by {
            if j >= 4 * i {
                assert(bytes@[j] == le32_bytes(table@[i as int])[j - 4 * i]);
            } else {
                assert(bytes@[j] == before[j]);
            }
        }
        i += 1;
    }
    assert(bytes@ =~= table_bytes(table@));
    bytes
}

/// Scans the directory entries in `data` for the first live entry, not a
/// long-name entry, whose name matches `query`.
pub fn scan_cluster(data: &[u8], query: &[u8]) -> (step: ScanStep)
    ensures
        same_scan(step, data@, scan_from(data@, query@, 0)),
        step matches ScanStep::Found(at, _) ==> at + 32 <= data@.len(),
{
    let n: usize = data.len();
    let mut at: usize = 0;
    loop
        invariant
            at <= n,
            n == data@.len(),
            scan_from(data@, query@, 0) == scan_from(data@, query@, at as int),
        decreases n - at,
    {
        if n < 32 || at > n - 32 {
            return ScanStep::Exhausted;
        }
        let first: u8 = data[at];
        if first == MARK_END {
            return ScanStep::End;
        }
        if first == MARK_DELETED || data[at + 11] == ATTR_LONG_NAME {
            at += 32;
            continue ;
        }
        let entry = DirectoryEntry::decode(data, at);
        match entry.matches_name(query) {
            Err(_) => {
                return ScanStep::Invalid;
            },
            Ok(true) => {
                return ScanStep::Found(at, entry);
            },
            Ok(false) => {
                at += 32;
            },
        }
    }
}

/// The first slot in `data` that is unused or deleted.
pub fn free_slot(data: &[u8]) -> (slot: Option<usize>)
    ensures
        match free_slot_from(data@, 0) {
            None => slot is None,
            Some(at) => slot is Some && slot->Some_0 as int == at && at + 32 <= data@.len(),
        },
{
    let n: usize = data.len();
    let mut at: usize = 0;
    loop
        invariant
            at <= n,
            n == data@.len(),
            free_slot_from(data@, 0) == free_slot_from(data@, at as int),
        decreases n - at,
    {
        if n < 32 || at > n - 32 {
            return None;
        }
        if data[at] == MARK_END || data[at] == MARK_DELETED {
            return Some(at);
        }
        at += 32;
    }
}

impl FAT32 {
    /// The volume's invariant: that of its mathematical value.
    pub open spec fn wf(&self) -> bool {
        volume_wf(self@)
    }

    /// Mounts the volume on `device`.
    ///
    /// Reads the boot sector, checks the extended boot record's signature
    /// (`InvalidSignature`) and system identifier (`NotFat32`), reads the
    /// FSInfo sector and checks its signatures (`InvalidFsInfo`), and loads
    /// the table. A sector that does not lie on the device gives `Fault`.
    pub fn new(device: BlockDevice) -> (result: Result<FAT32, FsError>)
        ensures
            match mount_outcome(device@) {
                Ok(v) => result is Ok && result->Ok_0@ == v && result->Ok_0.wf(),
                Err(e) => result is Err && result->Err_0 == e,
            },
    {
        let boot_bytes = match device.read(BOOT_SECTOR_LBA, 1) {
            Ok(bytes) => bytes,
            Err(_) => {
                return Err(FsError::Block(BlockError::Fault));
            },
        };
        let bootsector = BootSector::parse(boot_bytes.as_slice());
        let extended_boot_record = ExtendedBootRecord::parse(boot_bytes.as_slice());
        if !extended_boot_record.has_valid_signature() {
            return Err(FsError::InvalidSignature);
        }
        if !extended_boot_record.is_fat32() {
            return Err(FsError::NotFat32);
        }
        let info_lba: u64 = bootsector.num_hidden_sectors as u64
            + extended_boot_record.fsinfo_sector_num as u64;
        let info_bytes = match device.read(info_lba, 1) {
            Ok(bytes) => bytes,
            Err(_) => {
                return Err(FsError::Block(BlockError::Fault));
            },
        };
        let fsinfo = FSInfoMain::parse(info_bytes.as_slice());
        if !fsinfo.is_valid() {
            return Err(FsError::InvalidFsInfo);
        }
        let total_sectors: u32 = bootsector.total_sectors();
        let fat_lba: u64 = bootsector.num_hidden_sectors as u64 + bootsector.reserved_sectors as u64;
        let sectors_per_fat: u32 = extended_boot_record.sectors_per_fat;
        proof {
            lemma_mul_bound(bootsector.num_fats as int, sectors_per_fat as int, 255, 0xFFFF_FFFF);
        }
        let region: u64 = (bootsector.num_fats as u64) * (sectors_per_fat as u64);
        if !device.in_range(fat_lba, sectors_per_fat as u64) || !device.in_range(fat_lba, region) {
            return Err(FsError::Block(BlockError::Fault));
        }
        let table_bytes = match device.read(fat_lba, sectors_per_fat as usize) {
            Ok(bytes) => bytes,
            Err(_) => {
                return Err(FsError::Block(BlockError::Fault));
            },
        };
        let table = decode_table(table_bytes.as_slice());
        let volume = FAT32 {
            device,
            fat_processor: FAT::new(table, sectors_per_fat, bootsector.num_fats),
            partition_start_lba: bootsector.num_hidden_sectors,
            reserved_sectors: bootsector.reserved_sectors,
            sectors_per_cluster: bootsector.sectors_per_cluster,
            root_dir_num: bootsector.num_root_dir_entries,
            total_sectors,
            bytes_per_sector: bootsector.bytes_per_sector,
            root_dir_cluster: extended_boot_record.cluster_num_root_dir,
        };
        proof {
            let g = geometry_of(boot_bytes@);
            assert(volume@.geometry == g);
            assert(fat_copy_lba(g, 0) == fat_lba);
        }
        Ok(volume)
    }

    /// The device, with all that the driver has written to it.
    pub fn into_device(self) -> (device: BlockDevice)
        ensures
            device@ == self@.disk,
    {
        self.device
    }

    /// The volume's geometry.
    pub fn geometry(&self) -> (g: Geometry)
        ensures
            g == self@.geometry,
    {
        Geometry {
            partition_start_lba: self.partition_start_lba,
            reserved_sectors: self.reserved_sectors,
            sectors_per_cluster: self.sectors_per_cluster,
            bytes_per_sector: self.bytes_per_sector,
            fat_num: self.fat_processor.fat_num,
            sectors_per_fat: self.fat_processor.sectors_per_fat,
            root_dir_cluster: self.root_dir_cluster,
            root_dir_num: self.root_dir_num,
            total_sectors: self.total_sectors,
        }
    }

    /// The table mirror.
    pub fn fat(&self) -> (fat: &FAT)
        ensures
            fat.table@ == self@.table,
            fat.sectors_per_fat == self@.geometry.sectors_per_fat,
            fat.fat_num == self@.geometry.fat_num,
    {
        &self.fat_processor
    }

    /// First sector of cluster `cluster`.
    pub fn cluster_lba(&self, cluster: u32) -> (lba: u64)
        requires
            cluster >= 2,
        ensures
            lba == cluster_lba(self@.geometry, cluster),
    {
        proof {
            lemma_mul_bound(
                self.fat_processor.fat_num as int,
                self.fat_processor.sectors_per_fat as int,
                255,
                0xFFFF_FFFF,
            );
            lemma_mul_bound(
                cluster - 2,
                self.sectors_per_cluster as int,
                0xFFFF_FFFF,
                255,
            );
        }
        self.partition_start_lba as u64 + self.reserved_sectors as u64 + (
        self.fat_processor.fat_num as u64) * (self.fat_processor.sectors_per_fat as u64) + (
        cluster as u64 - 2) * (self.sectors_per_cluster as u64)
    }

    /// Whether cluster `cluster` can be transferred.
    pub fn cluster_ready(&self, cluster: u32) -> (ready: bool)
        ensures
            ready == cluster_ok(self@, cluster),
    {
        cluster >= 2 && self.bytes_per_sector == 512 && self.sectors_per_cluster >= 1
            && self.device.in_range(self.cluster_lba(cluster), self.sectors_per_cluster as u64)
    }

    /// Reads cluster `cluster`. Fails with `Fault` where the cluster cannot be
    /// transferred.
    pub fn load_cluster(&self, cluster: u32) -> (result: Result<Vec<u8>, FsError>)
        ensures
            cluster_ok(self@, cluster) ==> result is Ok && result->Ok_0@ == cluster_data(
                self@,
                cluster,
            ) && result->Ok_0@.len() == cluster_bytes(self@.geometry),
            !cluster_ok(self@, cluster) ==> result is Err && result->Err_0 == FsError::Block(
                BlockError::Fault,
            ),
    {
        if !self.cluster_ready(cluster) {
            return Err(FsError::Block(BlockError::Fault));
        }
        match self.device.read(self.cluster_lba(cluster), self.sectors_per_cluster as usize) {
            Ok(data) => Ok(data),
            Err(_) => Err(FsError::Block(BlockError::Fault)),
        }
    }

    /// One step along a chain: reads the next cluster of the chain and gives
    /// its number and its bytes, or `None` where the chain has ended. Fails
    /// with `Fault` where the cluster cannot be transferred; the follower has
    /// then passed that cluster.
    pub fn follow(&self, follower: &mut FATChainFollower) -> (step: Result<
        Option<(u32, Vec<u8>)>,
        FsError,
    >)
        ensures
            (old(follower).remaining == 0 || crate::fat32::table::is_end(
                old(follower).current_chain,
            )) ==> step is Ok && step->Ok_0 is None && *final(follower) == *old(follower),
            !(old(follower).remaining == 0 || crate::fat32::table::is_end(
                old(follower).current_chain,
            )) ==> final(follower).current_chain == crate::fat32::table::next_cluster(
                self@.table,
                old(follower).current_chain,
            ) && final(follower).remaining == old(follower).remaining - 1 && (if cluster_ok(
                self@,
                old(follower).current_chain,
            ) {
                step is Ok && step->Ok_0 is Some && step->Ok_0->Some_0.0 == old(follower).current_chain && step->Ok_0->Some_0.1@ == cluster_data(
                    self@,
                    old(follower).current_chain,
                ) && step->Ok_0->Some_0.1@.len() == cluster_bytes(self@.geometry)
            } else {
                step is Err && step->Err_0 == FsError::Block(BlockError::Fault)
            }),
    {
        match follower.next(&self.fat_processor) {
            None => Ok(None),
            Some(cluster) => {
                let data = self.load_cluster(cluster)?;
                Ok(Some((cluster, data)))
            },
        }
    }

    /// Stores `bytes` at offset `offset` of cluster `cluster`.
    pub fn store_at(&mut self, cluster: u32, offset: usize, bytes: &[u8])
        requires
            old(self).wf(),
            cluster_ok(old(self)@, cluster),
            offset + bytes@.len() <= cluster_bytes(old(self)@.geometry),
        ensures
            final(self).wf(),
            final(self)@ == (VolumeView {
                disk: disk_with(
                    old(self)@.disk,
                    cluster_pos(old(self)@.geometry, cluster, offset as int),
                    bytes@,
                ),
                ..old(self)@
            }),
    {
        let lba: u64 = self.cluster_lba(cluster);
        let mut buffer = match self.device.read(lba, self.sectors_per_cluster as usize) {
            Ok(data) => data,
            Err(_) => {
                return ;
            },
        };
        let ghost before = buffer@;
        overlay(&mut buffer, offset, bytes);
        let written = self.device.write(lba, buffer.as_slice());
        proof {
            assert(written is Ok);
            assert(self.device@ =~= disk_with(
                old(self)@.disk,
                cluster_pos(old(self)@.geometry, cluster, offset as int),
                bytes@,
            ));
        }
    }

    /// Writes the table mirror to every copy of the table on the device.
    pub fn sync_fat(&mut self)
        requires
            old(self).wf(),
        ensures
            final(self).wf(),
            final(self)@ == (VolumeView {
                disk: synced(old(self)@.disk, old(self)@.table, old(self)@.geometry),
                ..old(self)@
            }),
    {
        let bytes = encode_table(&self.fat_processor.table);
        let start: u64 = self.partition_start_lba as u64 + self.reserved_sectors as u64;
        let copies: u8 = self.fat_processor.fat_num;
        let spf: u64 = self.fat_processor.sectors_per_fat as u64;
        let mut i: u8 = 0;
        while i < copies
            invariant
                i <= copies,
                copies == old(self)@.geometry.fat_num,
                spf == old(self)@.geometry.sectors_per_fat,
                start == old(self)@.geometry.partition_start_lba + old(self)@.geometry.reserved_sectors,
                bytes@ == table_bytes(old(self)@.table),
                old(self).wf(),
                self@.table == old(self)@.table,
                self@.geometry == old(self)@.geometry,
                self@.disk.len() == old(self)@.disk.len(),
                self@.disk == synced_upto(
                    old(self)@.disk,
                    old(self)@.table,
                    old(self)@.geometry,
                    i as nat,
                ),
            decreases copies - i,
        {
            proof {
                lemma_mul_bound(i as int, spf as int, 255, 0xFFFF_FFFF);
                lemma_mul_bound(i as int + 1, spf as int, copies as int, spf as int);
                assert((i + 1) * spf == i * spf + spf) by (nonlinear_arith);
                assert(i * spf == spf * i) by (nonlinear_arith);
            }
            let lba: u64 = start + (i as u64) * spf;
            let written = self.device.write(lba, bytes.as_slice());
            assert(written is Ok);
            i += 1;
        }
    }

    /// Allocates a chain of `length` clusters in the table mirror and gives
    /// its first cluster; the table on the device stays as it is until
    /// [`FAT32::sync_fat`] writes it. Fails with `OutOfSpace`, changing
    /// nothing, if fewer clusters are free.
    pub fn allocate_chain(&mut self, length: usize) -> (result: Result<u32, FsError>)
        requires
            old(self).wf(),
        ensures
            final(self).wf(),
            match allocate_outcome(old(self)@.table, length as nat) {
                Ok((start, table)) => result == Ok::<u32, FsError>(start) && final(self)@ == (
                VolumeView { table, ..old(self)@ }),
                Err(e) => result == Err::<u32, FsError>(e) && final(self)@ == old(self)@,
            },
    {
        proof {
            if allocate_outcome(self@.table, length as nat) is Ok {
                crate::fat32::table::lemma_allocated_chain_walk(self@.table, length as nat);
            }
        }
        self.fat_processor.allocate_chain(length)
    }

    /// Releases the chain that starts at `start` in the table mirror; the
    /// table on the device stays as it is until [`FAT32::sync_fat`] writes
    /// it.
    pub fn deallocate_chain(&mut self, start: u32)
        requires
            old(self).wf(),
        ensures
            final(self).wf(),
            final(self)@ == (VolumeView {
                table: released(old(self)@.table, start, old(self)@.table.len()),
                ..old(self)@
            }),
    {
        proof {
            lemma_released_len(self@.table, start, self@.table.len());
        }
        self.fat_processor.deallocate_chain(start);
    }

    /// Searches the directory that starts at cluster `chain` for the object
    /// named `name`. Gives the entry, the cluster that holds it and its
    /// offset in that cluster, or `None` where the directory holds no such
    /// object.
    pub fn search_in_dir(&self, chain: u32, name: &[u8]) -> (result: Result<
        Option<(DirectoryEntry, u32, u64)>,
        FsError,
    >)
        ensures
            same_search(result, search_dir(self@, chain, name@)),
            result matches Ok(Some(found)) ==> cluster_ok(self@, found.1) && found.2 + 32
                <= cluster_bytes(self@.geometry),
    {
        let mut follower = FATChainFollower::new(chain, &self.fat_processor);
        loop
            invariant
                search_dir(self@, chain, name@) == search_chain(
                    self@,
                    name@,
                    follower.current_chain,
                    follower.remaining as nat,
                ),
            decreases follower.remaining,
        {
            let (cluster, data) = match self.follow(&mut follower)? {
                None => {
                    return Ok(None);
                },
                Some(step) => step,
            };
            match scan_cluster(data.as_slice(), name) {
                ScanStep::Found(at, entry) => {
                    return Ok(Some((entry, cluster, at as u64)));
                },
                ScanStep::End => {
                    return Ok(None);
                },
                ScanStep::Invalid => {
                    return Err(FsError::InvalidName);
                },
                ScanStep::Exhausted => {},
            }
        }
    }

    /// Whether the directory that starts at cluster `cluster` holds an
    /// object named `filename`.
    pub fn internal_object_exists(&self, cluster: u32, filename: &str) -> (result: Result<
        bool,
        FsError,
    >)
        ensures
            match search_dir(self@, cluster, filename.spec_bytes()) {
                Err(e) => result is Err && result->Err_0 == e,
                Ok(found) => result == Ok::<bool, FsError>(found is Some),
            },
    {
        Ok(self.search_in_dir(cluster, filename.as_bytes())?.is_some())
    }

    /// Traverses `path`, whose components are separated by `/`, from the root
    /// directory. Gives the entry found, the cluster that holds it and its
    /// offset in that cluster, or `None` where a component is not found.
    /// Fails with `NotADirectory` where a component that is not the last is
    /// no directory.
    pub fn traverse(&self, path: &str) -> (result: Result<
        Option<(DirectoryEntry, u32, u64)>,
        FsError,
    >)
        ensures
            same_search(result, traverse_outcome(self@, path.spec_bytes())),
            result matches Ok(Some(found)) ==> cluster_ok(self@, found.1) && found.2 + 32
                <= cluster_bytes(self@.geometry),
    {
        self.traverse_bytes(path.as_bytes())
    }

    /// As [`FAT32::traverse`], for a path given in bytes.
    pub fn traverse_bytes(&self, path: &[u8]) -> (result: Result<
        Option<(DirectoryEntry, u32, u64)>,
        FsError,
    >)
        ensures
            same_search(result, traverse_outcome(self@, path@)),
            result matches Ok(Some(found)) ==> cluster_ok(self@, found.1) && found.2 + 32
                <= cluster_bytes(self@.geometry),
    {
        let n: usize = path.len();
        let mut start: usize = 0;
        let mut dir: u32 = self.root_dir_cluster;
        assert(path@.subrange(0, n as int) =~= path@);
        loop
            invariant
                start <= n,
                n == path@.len(),
                traverse_outcome(self@, path@) == resolve(
                    self@,
                    path@.subrange(start as int, n as int),
                    dir,
                ),
            decreases n - start,
        {
            let ghost rest = path@.subrange(start as int, n as int);
            let end: usize = find_byte(path, start, SLASH);
            let segment = vstd::slice::slice_subrange(path, start, end);
            proof {
                assert(segment@ =~= head_part(rest, SLASH));
                if end < n {
                    assert(tail_part(rest, SLASH) =~= path@.subrange(end + 1, n as int));
                }
            }
            let (entry, cluster, offset) = match self.search_in_dir(dir, segment)? {
                None => {
                    return Ok(None);
                },
                Some(found) => found,
            };
            if end == n {
                return Ok(Some((entry, cluster, offset)));
            }
            if entry.file_attribute != ATTR_DIRECTORY {
                return Err(FsError::NotADirectory);
            }
            dir = entry.get_chain();
            start = end + 1;
        }
    }

    /// Reads the file at `path` into the front of `to`: as many bytes as the
    /// file holds, but not more than `n` and not more than `to` has room for.
    /// Fails with `NotFound` where no object lies at the path and with
    /// `IsADirectory` where a directory does; `to` is then unchanged.
    #[verifier::loop_isolation(false)]
    pub fn read_file(&self, path: &str, to: &mut Vec<u8>, n: usize) -> (result: Result<(), FsError>)
        ensures
            match read_outcome(self@, path.spec_bytes(), n as int, old(to)@.len() as int) {
                Err(e) => result is Err && result->Err_0 == e && final(to)@ == old(to)@,
                Ok(bytes) => result is Ok && final(to)@ == disk_with(old(to)@, 0, bytes),
            },
    {
        let entry = match self.traverse(path)? {
            None => {
                return Err(FsError::NotFound);
            },
            Some(found) => found.0,
        };
        if entry.file_attribute == ATTR_DIRECTORY {
            return Err(FsError::IsADirectory);
        }
        let mut wanted: usize = entry.file_size as usize;
        if n < wanted {
            wanted = n;
        }
        if to.len() < wanted {
            wanted = to.len();
        }
        let start: u32 = entry.get_chain();
        let mut gathered: Vec<u8> = Vec::new();
        let mut follower = FATChainFollower::new(start, &self.fat_processor);
        let mut ended: bool = false;
        assert(gathered@ + Seq::<u8>::empty() =~= gathered@);
        while !ended && gathered.len() < wanted
            invariant
                to@ == old(to)@,
                ended ==> follower.remaining == 0 || crate::fat32::table::is_end(
                    follower.current_chain,
                ),
                chain_data(self@, start, self@.table.len(), wanted as int) == match chain_data(
                    self@,
                    follower.current_chain,
                    follower.remaining as nat,
                    wanted - gathered@.len(),
                ) {
                    Err(e) => Err::<Seq<u8>, FsError>(e),
                    Ok(rest) => Ok(gathered@ + rest),
                },
            decreases follower.remaining + if ended { 0int } else { 1int },
        {
            let ghost before = follower;
            let ghost short = wanted - gathered@.len();
            let ghost earlier = gathered@;
            match self.follow(&mut follower)? {
                None => {
                    ended = true;
                },
                Some((cluster, data)) => {
                    gathered.extend_from_slice(data.as_slice());
                    proof {
                        let rest = chain_data(
                            self@,
                            follower.current_chain,
                            follower.remaining as nat,
                            short - cluster_bytes(self@.geometry),
                        );
                        assert(chain_data(self@, cluster, before.remaining as nat, short)
                            == match rest {
                            Err(e) => Err::<Seq<u8>, FsError>(e),
                            Ok(tail) => Ok(data@ + tail),
                        });
                        assert(gathered@ == earlier + data@);
                        assert(before.current_chain == cluster);
                        assert(wanted - gathered@.len() == short - cluster_bytes(self@.geometry));
                        assert(chain_data(self@, start, self@.table.len(), wanted as int)
                            == match chain_data(self@, cluster, before.remaining as nat, short) {
                            Err(e) => Err::<Seq<u8>, FsError>(e),
                            Ok(tail) => Ok(earlier + tail),
                        });
                        match rest {
                            Err(e) => {
                                assert(chain_data(self@, start, self@.table.len(), wanted as int)
                                    == Err::<Seq<u8>, FsError>(e));
                            },
                            Ok(tail) => {
                                assert((earlier + data@) + tail =~= earlier + (data@ + tail));
                                assert(chain_data(self@, start, self@.table.len(), wanted as int)
                                    == Ok::<Seq<u8>, FsError>(gathered@ + tail));
                            },
                        }
                    }
                },
            }
        }
        assert(gathered@ + Seq::<u8>::empty() =~= gathered@);
        let mut count: usize = wanted;
        if gathered.len() < count {
            count = gathered.len();
        }
        overlay(to, 0, vstd::slice::slice_subrange(gathered.as_slice(), 0, count));
        Ok(())
    }

    /// Plans appending `n` bytes to the file at `path`: finds the file and
    /// its clusters, picks the clusters to add, and makes sure that every
    /// cluster that takes bytes can be written. Changes nothing.
    #[verifier::loop_isolation(false)]
    pub fn plan_append(&self, path: &[u8], n: usize) -> (result: Result<AppendWork, FsError>)
        requires
            self.wf(),
        ensures
            match append_plan(self@, path@, n as int) {
                Err(e) => result is Err && result->Err_0 == e,
                Ok(model) => result is Ok && same_append(result->Ok_0, model) && cluster_ok(
                    self@,
                    model.file.cluster,
                ) && 0 <= model.file.offset && model.file.offset + 32 <= cluster_bytes(
                    self@.geometry,
                ) && geometry_ok(self@.geometry) && model.file.entry.size + n <= u32::MAX
                    && model.chain == file_chain(self@.table, model.file.entry.chain())
                    + model.added && model.kept == file_chain(
                    self@.table,
                    model.file.entry.chain(),
                ).len() && model.table == grown(
                    self@.table,
                    file_chain(self@.table, model.file.entry.chain()),
                    model.added,
                ) && (model.added.len() > 0 && model.kept > 0 ==> model.chain[model.kept - 1]
                    < self@.table.len()) && (forall|i: int|
                    0 <= i < model.added.len() ==> #[trigger] model.added[i] < self@.table.len())
                    && append_ok(self@, model.chain, n as int, model.file.entry.size as int, 0),
            },
    {
        let (entry, entry_cluster, entry_offset) = match self.traverse_bytes(path)? {
            None => {
                return Err(FsError::NotFound);
            },
            Some(found) => found,
        };
        if entry.file_attribute == ATTR_DIRECTORY {
            return Err(FsError::IsADirectory);
        }
        let size: u32 = entry.file_size;
        if n > (u32::MAX - size) as usize {
            return Err(FsError::OutOfSpace);
        }
        if self.bytes_per_sector != 512 || self.sectors_per_cluster == 0 {
            return Err(FsError::Block(BlockError::Fault));
        }
        let start: u32 = entry.get_chain();
        let mut chain: Vec<u32> = if start < 2 {
            Vec::new()
        } else {
            self.fat_processor.chain(start)
        };
        let kept: usize = chain.len();
        let ghost old_chain = chain@;
        let ghost g = self@.geometry;
        let clb: u64 = (self.sectors_per_cluster as u64) * 512;
        let total: u64 = size as u64 + n as u64;
        let need: u64 = (total + clb - 1) / clb;
        assert(need == clusters_for(g, size + n));
        assert(need * clb <= total + clb - 1) by (nonlinear_arith)
            requires
                need == (total + clb - 1) / (clb as int),
                clb > 0,
                total >= 0,
        ;
        assert(need * 512 <= need * clb) by (nonlinear_arith)
            requires
                clb >= 512,
                need >= 0,
        ;
        let count: usize = if need > kept as u64 {
            (need - kept as u64) as usize
        } else {
            0
        };
        if count > 0 && kept > 0 && (chain[kept - 1] as usize) >= self.fat_processor.table.len() {
            return Err(FsError::Block(BlockError::Fault));
        }
        let added = match self.fat_processor.find_free(count) {
            None => {
                return Err(FsError::OutOfSpace);
            },
            Some(added) => added,
        };
        proof {
            lemma_free_clusters(self@.table, 2, count as nat);
            assert forall|i: int| 0 <= i < added@.len() implies #[trigger] added@[i]
                < self@.table.len() by {
                assert(added@[i] < crate::fat32::table::usable_len(self@.table));
            }
        }
        chain.extend_from_slice(added.as_slice());
        let links: usize = chain.len();
        assert(chain@ == old_chain + added@);
        let mut pos: u64 = size as u64;
        let mut from: usize = 0;
        while from < n
            invariant
                from <= n,
                pos == size + from,
                links == chain@.len(),
                clb == cluster_bytes(g),
                clb >= 512,
                append_ok(self@, chain@, n as int, size as int, 0) == append_ok(
                    self@,
                    chain@,
                    n as int,
                    pos as int,
                    from as int,
                ),
            decreases n - from,
        {
            let k: u64 = pos / clb;
            let off: u64 = pos % clb;
            let room: u64 = clb - off;
            let left: u64 = (n - from) as u64;
            let take: u64 = if room < left {
                room
            } else {
                left
            };
            assert(take == chunk_len(g, pos as int, n - from));
            if k >= links as u64 || !self.cluster_ready(chain[k as usize]) {
                return Err(FsError::Block(BlockError::Fault));
            }
            pos = pos + take;
            from = from + take as usize;
        }
        let mut new_entry = entry;
        new_entry.file_size = size + n as u32;
        if kept == 0 && added.len() > 0 {
            new_entry.set_chain(added[0]);
        }
        Ok(
            AppendWork {
                entry: new_entry,
                entry_cluster,
                entry_offset,
                size,
                chain,
                kept,
                added,
            },
        )
    }

    /// Appends the first `n` bytes of `from`, or all of `from` where it is
    /// shorter, to the file at `path`.
    ///
    /// The file's chain grows by as many clusters as it lacks to hold the
    /// old size and the new bytes; each byte is stored at its position
    /// behind the file's old end; the entry's size grows by the number of
    /// bytes, and the entry of a file that had no cluster names the first
    /// cluster added. Fails with `NotFound` where no object lies at the
    /// path, `IsADirectory` where a directory does, `OutOfSpace` where too
    /// few clusters are free or the size would not fit into 32 bits, and
    /// `Fault` where a cluster to be written cannot be transferred. A
    /// failure changes nothing.
    pub fn write_file(&mut self, path: &str, from: &[u8], n: usize) -> (result: Result<(), FsError>)
        requires
            old(self).wf(),
        ensures
            final(self).wf(),
            match write_outcome(
                old(self)@,
                path.spec_bytes(),
                from@.subrange(0, least(n as int, from@.len() as int)),
            ) {
                Err(e) => result is Err && result->Err_0 == e && final(self)@ == old(self)@,
                Ok(v) => result is Ok && final(self)@ == v,
            },
    {
        let count: usize = if n < from.len() {
            n
        } else {
            from.len()
        };
        let data = vstd::slice::slice_subrange(from, 0, count);
        let work = self.plan_append(path.as_bytes(), count)?;
        let ghost model = append_plan(self@, path.spec_bytes(), count as int)->Ok_0;
        let ghost g = self@.geometry;
        let clb: usize = (self.sectors_per_cluster as usize) * 512;
        if work.added.len() > 0 {
            proof {
                lemma_linked_frame(self@.table, work.added@);
                lemma_synced_len(self@.disk, model.table, g, g.fat_num as nat);
            }
            self.fat_processor.link(&work.added);
            if work.kept > 0 {
                self.fat_processor.set_entry(work.chain[work.kept - 1], work.added[0]);
            }
            self.sync_fat();
        }
        let ghost d1 = self@.disk;
        let links: usize = work.chain.len();
        let mut pos: usize = work.size as usize;
        let mut done: usize = 0;
        while done < count
            invariant
                self.wf(),
                self@.table == model.table,
                self@.geometry == g,
                g == old(self)@.geometry,
                self@.disk.len() == old(self)@.disk.len(),
                clb == cluster_bytes(g),
                clb >= 512,
                count == data@.len(),
                done <= count,
                pos == work.size + done,
                work.size + count <= u32::MAX,
                links == work.chain@.len(),
                append_ok(old(self)@, work.chain@, count as int, pos as int, done as int),
                appended(d1, g, work.chain@, data@, work.size as int, 0) == appended(
                    self@.disk,
                    g,
                    work.chain@,
                    data@,
                    pos as int,
                    done as int,
                ),
            decreases count - done,
        {
            let k: usize = pos / clb;
            let off: usize = pos % clb;
            let room: usize = clb - off;
            let left: usize = count - done;
            let take: usize = if room < left {
                room
            } else {
                left
            };
            assert(take == chunk_len(g, pos as int, count - done));
            let cluster: u32 = work.chain[k];
            proof {
                lemma_cluster_ok_same_size(old(self)@, self@, cluster);
            }
            self.store_at(cluster, off, vstd::slice::slice_subrange(data, done, done + take));
            pos = pos + take;
            done = done + take;
        }
        let bytes = work.entry.encode();
        proof {
            lemma_cluster_ok_same_size(old(self)@, self@, work.entry_cluster);
        }
        self.store_at(work.entry_cluster, work.entry_offset as usize, bytes.as_slice());
        Ok(())
    }

    /// The first unused or deleted slot of the directory that starts at
    /// cluster `dir`: its cluster and its offset in that cluster.
    pub fn find_slot(&self, dir: u32) -> (result: Result<Option<(u32, usize)>, FsError>)
        ensures
            match free_slot_chain(self@, dir, self@.table.len()) {
                Err(e) => result is Err && result->Err_0 == e,
                Ok(None) => result is Ok && result->Ok_0 is None,
                Ok(Some((cluster, at))) => result is Ok && result->Ok_0 is Some
                    && result->Ok_0->Some_0.0 == cluster && result->Ok_0->Some_0.1 as int == at
                    && cluster_ok(self@, cluster) && at + 32 <= cluster_bytes(self@.geometry),
            },
    {
        let mut follower = FATChainFollower::new(dir, &self.fat_processor);
        loop
            invariant
                free_slot_chain(self@, dir, self@.table.len()) == free_slot_chain(
                    self@,
                    follower.current_chain,
                    follower.remaining as nat,
                ),
            decreases follower.remaining,
        {
            let (cluster, data) = match self.follow(&mut follower)? {
                None => {
                    return Ok(None);
                },
                Some(step) => step,
            };
            match free_slot(data.as_slice()) {
                Some(at) => {
                    return Ok(Some((cluster, at)));
                },
                None => {},
            }
        }
    }

    /// The first cluster of the directory that `dir_path` names; the root
    /// directory for the empty path.
    pub fn parent_cluster(&self, dir_path: &[u8]) -> (result: Result<u32, FsError>)
        ensures
            match parent_outcome(self@, dir_path@) {
                Err(e) => result is Err && result->Err_0 == e,
                Ok(cluster) => result == Ok::<u32, FsError>(cluster),
            },
    {
        if dir_path.len() == 0 {
            return Ok(self.root_dir_cluster);
        }
        match self.traverse_bytes(dir_path)? {
            None => Err(FsError::NotFound),
            Some((entry, _, _)) => {
                if entry.file_attribute != ATTR_DIRECTORY {
                    Err(FsError::NotADirectory)
                } else {
                    Ok(entry.get_chain())
                }
            },
        }
    }

    /// Plans the creation of an object: finds the directory, makes sure
    /// that it holds no object of that name, picks the slot for the entry,
    /// checks the name, and picks the cluster for the object, in this
    /// order. The directory is not searched for a name of more than two
    /// parts, which no entry bears. Changes nothing.
    pub fn plan_object(&self, dir_path: &[u8], name: &[u8], attribute: u8) -> (result: Result<
        ObjectPlan,
        FsError,
    >)
        ensures
            match plan_outcome(self@, dir_path@, name@, attribute) {
                Err(e) => result is Err && result->Err_0 == e,
                Ok(model) => result is Ok && same_plan(result->Ok_0, model) && cluster_ok(
                    self@,
                    model.slot_cluster,
                ) && 0 <= model.slot_offset && model.slot_offset + 32 <= cluster_bytes(
                    self@.geometry,
                ),
            },
    {
        let parent: u32 = self.parent_cluster(dir_path)?;
        if !split_name(name).more && self.search_in_dir(parent, name)?.is_some() {
            return Err(FsError::AlreadyExists);
        }
        let (slot_cluster, slot_offset) = match self.find_slot(parent)? {
            None => {
                return Err(FsError::NoFreeEntry);
            },
            Some(slot) => slot,
        };
        let (base, ext) = DirectoryEntry::parse_name(name)?;
        let cluster: u32 = match self.fat_processor.find_free(1) {
            None => {
                return Err(FsError::OutOfSpace);
            },
            Some(clusters) => clusters[0],
        };
        Ok(
            ObjectPlan {
                parent,
                slot_cluster,
                slot_offset,
                entry: DirectoryEntry::fresh(base, ext, attribute, cluster),
                cluster,
            },
        )
    }

    /// Carries out a plan: allocates the object's cluster, stores the entry
    /// in its slot and writes the table to the device.
    fn commit_object(&mut self, plan: &ObjectPlan, Ghost(model): Ghost<CreationPlan>)
        requires
            old(self).wf(),
            same_plan(*plan, model),
            allocate_outcome(old(self)@.table, 1) == Ok::<(u32, Seq<u32>), FsError>(
                (model.cluster, model.table),
            ),
            cluster_ok(old(self)@, model.slot_cluster),
            0 <= model.slot_offset,
            model.slot_offset + 32 <= cluster_bytes(old(self)@.geometry),
        ensures
            final(self).wf(),
            final(self)@ == committed(old(self)@, model),
            final(self)@.disk.len() == old(self)@.disk.len(),
    {
        proof {
            lemma_free_clusters(self@.table, 2, 1);
            lemma_synced_len(
                disk_with(
                    self@.disk,
                    cluster_pos(self@.geometry, model.slot_cluster, model.slot_offset),
                    entry_bytes(model.entry),
                ),
                model.table,
                self@.geometry,
                self@.geometry.fat_num as nat,
            );
        }
        let bytes = plan.entry.encode();
        self.store_at(plan.slot_cluster, plan.slot_offset, bytes.as_slice());
        let _ = self.fat_processor.allocate_chain(1);
        self.sync_fat();
    }

    /// Creates an object named `filename` with the attribute given in the
    /// directory `directory_path`: stores its entry in the first unused or
    /// deleted slot of the directory, allocates one cluster for it, and
    /// writes the table to the device. Gives the first cluster of the
    /// directory and the cluster of the new object. Fails as
    /// [`FAT32::create_file`] does; a failure changes nothing.
    pub fn create_object(&mut self, directory_path: &str, filename: &str, file_attribute: u8) -> (result:
        Result<(u32, u32), FsError>)
        requires
            old(self).wf(),
        ensures
            final(self).wf(),
            match plan_outcome(
                old(self)@,
                directory_path.spec_bytes(),
                filename.spec_bytes(),
                file_attribute,
            ) {
                Err(e) => result is Err && result->Err_0 == e && final(self)@ == old(self)@,
                Ok(plan) => result == Ok::<(u32, u32), FsError>((plan.parent, plan.cluster))
                    && final(self)@ == committed(old(self)@, plan),
            },
    {
        let plan = self.plan_object(
            directory_path.as_bytes(),
            filename.as_bytes(),
            file_attribute,
        )?;
        let ghost model = plan_outcome(
            self@,
            directory_path.spec_bytes(),
            filename.spec_bytes(),
            file_attribute,
        )->Ok_0;
        self.commit_object(&plan, Ghost(model));
        Ok((plan.parent, plan.cluster))
    }

    /// Creates the file `filename` in the directory `directory_path`, the
    /// root directory where the path is empty.
    ///
    /// Fails, in this order, with `NotFound` where the directory does not
    /// exist, `NotADirectory` where it is a file, `AlreadyExists` where it
    /// holds an object of that name, `NoFreeEntry` where it has no free
    /// slot, `NameTooLong` or `InvalidName` where the name is refused, and
    /// `OutOfSpace` where no cluster is free. A failure changes nothing.
    pub fn create_file(&mut self, directory_path: &str, filename: &str) -> (result: Result<
        (),
        FsError,
    >)
        requires
            old(self).wf(),
        ensures
            final(self).wf(),
            match create_file_outcome(
                old(self)@,
                directory_path.spec_bytes(),
                filename.spec_bytes(),
            ) {
                Err(e) => result is Err && result->Err_0 == e && final(self)@ == old(self)@,
                Ok(v) => result is Ok && final(self)@ == v,
            },
    {
        let _ = self.create_object(directory_path, filename, ATTR_FILE)?;
        Ok(())
    }

    /// Creates the directory `dirname` in the directory `directory_path`,
    /// the root directory where the path is empty. The new directory's first
    /// cluster holds the entries `.` and `..` and is zero elsewhere.
    ///
    /// Fails as [`FAT32::create_file`] does, and with `Fault` where the new
    /// directory's cluster cannot be written. A failure changes nothing.
    pub fn create_directory(&mut self, directory_path: &str, dirname: &str) -> (result: Result<
        (),
        FsError,
    >)
        requires
            old(self).wf(),
        ensures
            final(self).wf(),
            match create_directory_outcome(
                old(self)@,
                directory_path.spec_bytes(),
                dirname.spec_bytes(),
            ) {
                Err(e) => result is Err && result->Err_0 == e && final(self)@ == old(self)@,
                Ok(v) => result is Ok && final(self)@ == v,
            },
    {
        let plan = self.plan_object(
            directory_path.as_bytes(),
            dirname.as_bytes(),
            ATTR_DIRECTORY,
        )?;
        let ghost model = plan_outcome(
            self@,
            directory_path.spec_bytes(),
            dirname.spec_bytes(),
            ATTR_DIRECTORY,
        )->Ok_0;
        if !self.cluster_ready(plan.cluster) {
            return Err(FsError::Block(BlockError::Fault));
        }
        let size: usize = (self.sectors_per_cluster as usize) * 512;
        let mut block: Vec<u8> = vec![0u8; size];
        let dot_name: [u8; 8] = [0x2E, 0x20, 0x20, 0x20, 0x20, 0x20, 0x20, 0x20];
        let dotdot_name: [u8; 8] = [0x2E, 0x2E, 0x20, 0x20, 0x20, 0x20, 0x20, 0x20];
        let blank: [u8; 3] = [0x20, 0x20, 0x20];
        let dot = DirectoryEntry::fresh(dot_name, blank, ATTR_DIRECTORY, plan.cluster);
        let dotdot = DirectoryEntry::fresh(dotdot_name, blank, ATTR_DIRECTORY, plan.parent);
        assert(dot_name@ =~= crate::fat32::model::dot_name());
        assert(dotdot_name@ =~= crate::fat32::model::dotdot_name());
        assert(blank@ =~= blank_ext());
        let dot_bytes = dot.encode();
        let dotdot_bytes = dotdot.encode();
        overlay(&mut block, 0, dot_bytes.as_slice());
        overlay(&mut block, 32, dotdot_bytes.as_slice());
        assert(block@ =~= directory_start(self@.geometry, plan.cluster, plan.parent));
        self.commit_object(&plan, Ghost(model));
        self.store_at(plan.cluster, 0, block.as_slice());
        Ok(())
    }

    /// Deletes the object whose entry `entry` lies at offset `offset` of
    /// cluster `cluster`: marks the entry deleted, releases the object's
    /// chain and writes the table to the device.
    pub fn delete_object(&mut self, entry: &DirectoryEntry, cluster: u32, offset: u64)
        requires
            old(self).wf(),
            cluster_ok(old(self)@, cluster),
            offset + 32 <= cluster_bytes(old(self)@.geometry),
        ensures
            final(self).wf(),
            final(self)@ == (VolumeView {
                disk: synced(
                    disk_with(
                        old(self)@.disk,
                        cluster_pos(old(self)@.geometry, cluster, offset as int),
                        seq![0xE5u8],
                    ),
                    released(old(self)@.table, entry@.chain(), old(self)@.table.len()),
                    old(self)@.geometry,
                ),
                table: released(old(self)@.table, entry@.chain(), old(self)@.table.len()),
                geometry: old(self)@.geometry,
            }),
    {
        proof {
            lemma_released_len(self@.table, entry@.chain(), self@.table.len());
        }
        let mark: [u8; 1] = [MARK_DELETED];
        assert(mark@ =~= seq![0xE5u8]);
        self.store_at(cluster, offset as usize, mark.as_slice());
        self.fat_processor.deallocate_chain(entry.get_chain());
        self.sync_fat();
    }

    /// Deletes the file at `path`. Fails with `NotFound` where no object lies
    /// at the path and with `WrongType` where a directory does. A failure
    /// changes nothing.
    pub fn delete_file(&mut self, path: &str) -> (result: Result<(), FsError>)
        requires
            old(self).wf(),
        ensures
            final(self).wf(),
            match delete_outcome(old(self)@, path.spec_bytes(), false) {
                Err(e) => result is Err && result->Err_0 == e && final(self)@ == old(self)@,
                Ok(v) => result is Ok && final(self)@ == v,
            },
    {
        let (entry, cluster, offset) = match self.traverse(path)? {
            None => {
                return Err(FsError::NotFound);
            },
            Some(found) => found,
        };
        if entry.file_attribute == ATTR_DIRECTORY {
            return Err(FsError::WrongType);
        }
        self.delete_object(&entry, cluster, offset);
        Ok(())
    }

    /// Deletes the directory at `path`, without looking at what it holds.
    /// Fails with `NotFound` where no object lies at the path and with
    /// `WrongType` where a file does. A failure changes nothing.
    pub fn delete_directory(&mut self, path: &str) -> (result: Result<(), FsError>)
        requires
            old(self).wf(),
        ensures
            final(self).wf(),
            match delete_outcome(old(self)@, path.spec_bytes(), true) {
                Err(e) => result is Err && result->Err_0 == e && final(self)@ == old(self)@,
                Ok(v) => result is Ok && final(self)@ == v,
            },
    {
        let (entry, cluster, offset) = match self.traverse(path)? {
            None => {
                return Err(FsError::NotFound);
            },
            Some(found) => found,
        };
        if entry.file_attribute != ATTR_DIRECTORY {
            return Err(FsError::WrongType);
        }
        self.delete_object(&entry, cluster, offset);
        Ok(())
    }
}

} // verus!
