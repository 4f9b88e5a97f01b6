//! Creation keeps a volume in order: a volume that is well formed along the
//! path of a new object is well formed along it once the object is there.

use crate::drivers::block::disk_with;
use crate::fat32::entry::{entry_bytes, lemma_entry_round_trip};
use crate::fat32::error::FsError;
use crate::fat32::laws::{
    agree_on,
    joined,
    lemma_chain_rest,
    lemma_created_is_found_in_directory,
    lemma_free_slot_chain_facts,
    lemma_reads_in_chain,
    lemma_search_frame,
    lemma_slot_in_chain,
    lemma_stored_cluster,
    lemma_synced_cluster,
    path_wf,
    search_reads,
    well_formed_along,
};
use crate::fat32::model::{
    append_plan,
    cluster_bytes,
    cluster_data,
    cluster_ok,
    cluster_pos,
    committed,
    create_directory_outcome,
    create_file_outcome,
    directory_start,
    file_chain,
    lemma_synced_len,
    parent_outcome,
    plan_outcome,
    read_outcome,
    resolve,
    search_dir,
    traverse_outcome,
    volume_wf,
    write_outcome,
    Located,
    VolumeView,
    SLASH,
};
use crate::fat32::read_back::{
    file_at,
    file_content,
    file_in_order,
    file_sound,
    lemma_append_ok_at,
    lemma_written_is_read,
};
use crate::fat32::short_name::{
    first_index,
    has_tail,
    head_part,
    lemma_first_index,
    lemma_first_index_bounds,
    lemma_name_round_trip,
    tail_part,
    valid_short_name,
};
use crate::fat32::table::{
    chain_clusters,
    is_end,
    lemma_free_clusters,
    next_cluster,
    END_OF_CHAIN,
};
use vstd::prelude::*;

verus! {

/// Whether `w` is `v` after an object was created: the cluster `fresh`,
/// free before, ends a chain now, and every cluster but `fresh` and `slot`
/// holds what it held.
pub open spec fn created_in(v: VolumeView, w: VolumeView, slot: u32, fresh: u32) -> bool {
    &&& w.geometry == v.geometry
    &&& w.disk.len() == v.disk.len()
    &&& 2 <= fresh < v.table.len()
    &&& fresh < 0x0FFF_FFF8
    &&& v.table[fresh as int] == 0
    &&& w.table == v.table.update(fresh as int, END_OF_CHAIN)
    &&& forall|c: u32|
        cluster_ok(v, c) && c != slot && c != fresh ==> #[trigger] cluster_data(w, c)
            == cluster_data(v, c)
}

/// A chain is what it was after the entry of a cluster outside it was set.
pub proof fn lemma_chain_unchanged(table: Seq<u32>, at: u32, value: u32, start: u32, limit: nat)
    requires
        at < table.len(),
        !chain_clusters(table, start, limit).contains(at),
    ensures
        chain_clusters(table.update(at as int, value), start, limit) == chain_clusters(
            table,
            start,
            limit,
        ),
    decreases limit,
{
    if limit == 0 || is_end(start) {
    } else {
        let chain = chain_clusters(table, start, limit);
        let next = next_cluster(table, start);
        assert(chain[0] == start);
        assert(chain.contains(start));
        if chain_clusters(table, next, (limit - 1) as nat).contains(at) {
            lemma_chain_rest(table, start, limit, at);
        }
        lemma_chain_unchanged(table, at, value, next, (limit - 1) as nat);
    }
}

/// A path made of a front, a slash and a rest starts with the first
/// component of the front, and goes on with the rest of the front, a slash
/// and the rest, or with the rest alone where the front is one component.
pub proof fn lemma_joined_parts(front: Seq<u8>, rest: Seq<u8>)
    ensures
        has_tail(front + seq![SLASH] + rest, SLASH),
        head_part(front + seq![SLASH] + rest, SLASH) == head_part(front, SLASH),
        tail_part(front + seq![SLASH] + rest, SLASH) == if has_tail(front, SLASH) {
            tail_part(front, SLASH) + seq![SLASH] + rest
        } else {
            rest
        },
{
    let path = front + seq![SLASH] + rest;
    lemma_first_index_bounds(front, SLASH);
    let i = first_index(front, SLASH) as int;
    assert forall|j: int| 0 <= j < i implies path[j] != SLASH by {
        assert(path[j] == front[j]);
    }
    if has_tail(front, SLASH) {
        assert(path[i] == front[i]);
        lemma_first_index(path, SLASH, i);
        assert(head_part(path, SLASH) =~= head_part(front, SLASH));
        assert(tail_part(path, SLASH) =~= tail_part(front, SLASH) + seq![SLASH] + rest);
    } else {
        assert(path[i] == SLASH);
        lemma_first_index(path, SLASH, i);
        assert(head_part(path, SLASH) =~= front);
        assert(head_part(front, SLASH) =~= front);
        assert(tail_part(path, SLASH) =~= rest);
    }
}

/// A name without slash is one component.
pub proof fn lemma_one_part(name: Seq<u8>)
    requires
        forall|i: int| 0 <= i < name.len() ==> name[i] != SLASH,
    ensures
        !has_tail(name, SLASH),
        head_part(name, SLASH) == name,
{
    lemma_first_index(name, SLASH, name.len() as int);
    assert(head_part(name, SLASH) =~= name);
}

/// The clusters of a directory in order are what they were after an object
/// was created, and each holds what it held unless it is the slot's.
pub proof fn lemma_directory_kept(v: VolumeView, w: VolumeView, slot: u32, fresh: u32, dir: u32)
    requires
        created_in(v, w, slot, fresh),
        forall|c: u32|
            #![trigger chain_clusters(v.table, dir, v.table.len()).contains(c)]
            chain_clusters(v.table, dir, v.table.len()).contains(c) ==> cluster_ok(v, c)
                && next_cluster(v.table, c) != 0,
    ensures
        chain_clusters(w.table, dir, w.table.len()) == chain_clusters(
            v.table,
            dir,
            v.table.len(),
        ),
        forall|c: u32|
            #![trigger chain_clusters(v.table, dir, v.table.len()).contains(c)]
            chain_clusters(v.table, dir, v.table.len()).contains(c) ==> cluster_ok(w, c)
                && next_cluster(w.table, c) == next_cluster(v.table, c) && c != fresh,
{
    let chain = chain_clusters(v.table, dir, v.table.len());
    if chain.contains(fresh) {
        assert(next_cluster(v.table, fresh) != 0);
    }
    lemma_chain_unchanged(v.table, fresh, END_OF_CHAIN, dir, v.table.len());
}

/// A search of a directory in order finds after the creation of an object
/// what it found before, where the slot of the new entry is none of the
/// directory's.
pub proof fn lemma_search_kept(v: VolumeView, w: VolumeView, slot: u32, fresh: u32, dir: u32, query: Seq<
    u8,
>)
    requires
        created_in(v, w, slot, fresh),
        !chain_clusters(v.table, dir, v.table.len()).contains(slot),
        forall|c: u32|
            #![trigger chain_clusters(v.table, dir, v.table.len()).contains(c)]
            chain_clusters(v.table, dir, v.table.len()).contains(c) ==> cluster_ok(v, c)
                && next_cluster(v.table, c) != 0,
    ensures
        search_dir(w, dir, query) == search_dir(v, dir, query),
{
    let len = v.table.len();
    let chain = chain_clusters(v.table, dir, len);
    let reads = search_reads(v, query, dir, len);
    lemma_directory_kept(v, w, slot, fresh, dir);
    lemma_reads_in_chain(v, query, dir, len);
    assert forall|c: u32| #![trigger reads.contains(c)] reads.contains(c) implies (cluster_ok(v, c)
        ==> cluster_data(w, c) == cluster_data(v, c)) && next_cluster(w.table, c) == next_cluster(
        v.table,
        c,
    ) by {
        assert(chain.contains(c));
    }
    assert(agree_on(v, w, reads));
    lemma_search_frame(v, w, query, dir, len);
}

/// A new object is apart from the way to it: a volume that was well formed
/// along the object's name from its directory on is so once the object is
/// found there with the fresh cluster as its chain.
pub proof fn lemma_new_object_apart(
    v: VolumeView,
    w: VolumeView,
    name: Seq<u8>,
    dir: u32,
    seen: Set<u32>,
    slot: u32,
    fresh: u32,
    made: Located,
)
    requires
        forall|i: int| 0 <= i < name.len() ==> name[i] != SLASH,
        path_wf(v, name, dir, seen),
        created_in(v, w, slot, fresh),
        search_dir(w, dir, name) == Ok::<Option<Located>, FsError>(Some(made)),
        made.entry.chain() == fresh,
        forall|c: u32| #![trigger seen.contains(c)] seen.contains(c) ==> next_cluster(v.table, c) != 0,
    ensures
        path_wf(w, name, dir, seen),
        resolve(w, name, dir) == Ok::<Option<Located>, FsError>(Some(made)),
{
    let len = v.table.len();
    let chain = chain_clusters(v.table, dir, len);
    lemma_one_part(name);
    lemma_directory_kept(v, w, slot, fresh, dir);
    let object = chain_clusters(w.table, fresh, len);
    assert(next_cluster(w.table, fresh) == 0x0FFF_FFFF);
    assert(chain_clusters(w.table, 0x0FFF_FFFF, (len - 1) as nat) =~= Seq::<u32>::empty());
    assert(object =~= seq![fresh]);
    assert forall|c: u32| #![trigger object.contains(c)] object.contains(c) implies !seen.contains(
        c,
    ) && !chain.contains(c) by {
        assert(c == fresh);
        assert(next_cluster(v.table, fresh) == 0);
    }
}

/// The directory that a front of a path leads to is apart from the way to
/// it, where the volume is well formed along the front, a slash and a name:
/// each of its clusters can be transferred, is in use, and is none of a
/// directory passed before.
pub proof fn lemma_home_is_apart(
    v: VolumeView,
    front: Seq<u8>,
    name: Seq<u8>,
    dir: u32,
    seen: Set<u32>,
    home: Located,
)
    requires
        path_wf(v, front + seq![SLASH] + name, dir, seen),
        resolve(v, front, dir) == Ok::<Option<Located>, FsError>(Some(home)),
        home.entry.attribute == 0x10,
    ensures
        forall|c: u32|
            #![trigger chain_clusters(v.table, home.entry.chain(), v.table.len()).contains(c)]
            chain_clusters(v.table, home.entry.chain(), v.table.len()).contains(c) ==> cluster_ok(
                v,
                c,
            ) && next_cluster(v.table, c) != 0 && !seen.contains(c) && !chain_clusters(
                v.table,
                dir,
                v.table.len(),
            ).contains(c),
    decreases front.len(),
{
    let len = v.table.len();
    let path = front + seq![SLASH] + name;
    let chain = chain_clusters(v.table, dir, len);
    let inner = Set::new(|c: u32| seen.contains(c) || chain.contains(c));
    let first = search_dir(v, dir, head_part(front, SLASH))->Ok_0->Some_0;
    let place = chain_clusters(v.table, home.entry.chain(), len);
    lemma_joined_parts(front, name);
    assert(search_dir(v, dir, head_part(path, SLASH)) == Ok::<Option<Located>, FsError>(
        Some(first),
    ));
    assert(first.entry.attribute == 0x10);
    if has_tail(front, SLASH) {
        assert(path_wf(
            v,
            tail_part(front, SLASH) + seq![SLASH] + name,
            first.entry.chain(),
            inner,
        ));
        lemma_home_is_apart(v, tail_part(front, SLASH), name, first.entry.chain(), inner, home);
    } else {
        assert(first == home);
        assert(path_wf(v, name, home.entry.chain(), inner));
    }
    assert forall|c: u32| #![trigger place.contains(c)] place.contains(c) implies cluster_ok(v, c)
        && next_cluster(v.table, c) != 0 && !seen.contains(c) && !chain.contains(c) by {
        if seen.contains(c) || chain.contains(c) {
            assert(inner.contains(c));
        }
    }
}

/// Creation keeps the way in order: a volume that was well formed along a
/// front, a slash and a name is so once an object of that name is found in
/// the directory that the front leads to, with the fresh cluster as its
/// chain and its entry in a cluster of that directory; and the path then
/// leads to the object.
pub proof fn lemma_creation_keeps_way(
    v: VolumeView,
    w: VolumeView,
    front: Seq<u8>,
    name: Seq<u8>,
    dir: u32,
    seen: Set<u32>,
    home: Located,
    slot: u32,
    fresh: u32,
    made: Located,
)
    requires
        forall|i: int| 0 <= i < name.len() ==> name[i] != SLASH,
        path_wf(v, front + seq![SLASH] + name, dir, seen),
        resolve(v, front, dir) == Ok::<Option<Located>, FsError>(Some(home)),
        home.entry.attribute == 0x10,
        created_in(v, w, slot, fresh),
        chain_clusters(v.table, home.entry.chain(), v.table.len()).contains(slot),
        search_dir(w, home.entry.chain(), name) == Ok::<Option<Located>, FsError>(Some(made)),
        made.entry.chain() == fresh,
        forall|c: u32| #![trigger seen.contains(c)] seen.contains(c) ==> next_cluster(v.table, c) != 0,
    ensures
        path_wf(w, front + seq![SLASH] + name, dir, seen),
        resolve(w, front + seq![SLASH] + name, dir) == Ok::<Option<Located>, FsError>(Some(made)),
    decreases front.len(),
{
    let len = v.table.len();
    let path = front + seq![SLASH] + name;
    let head = head_part(front, SLASH);
    let chain = chain_clusters(v.table, dir, len);
    let inner = Set::new(|c: u32| seen.contains(c) || chain.contains(c));
    let after = Set::new(
        |c: u32| seen.contains(c) || chain_clusters(w.table, dir, w.table.len()).contains(c),
    );
    let first = search_dir(v, dir, head)->Ok_0->Some_0;
    lemma_joined_parts(front, name);
    lemma_home_is_apart(v, front, name, dir, seen, home);
    lemma_directory_kept(v, w, slot, fresh, dir);
    lemma_search_kept(v, w, slot, fresh, dir, head);
    assert(after =~= inner);
    assert forall|c: u32| #![trigger inner.contains(c)] inner.contains(c) implies next_cluster(
        v.table,
        c,
    ) != 0 by {
        if !seen.contains(c) {
            assert(chain.contains(c));
        }
    }
    if has_tail(front, SLASH) {
        lemma_creation_keeps_way(
            v,
            w,
            tail_part(front, SLASH),
            name,
            first.entry.chain(),
            inner,
            home,
            slot,
            fresh,
            made,
        );
    } else {
        lemma_new_object_apart(v, w, name, home.entry.chain(), inner, slot, fresh, made);
    }
}

/// The home of a new object is in order where the volume is well formed
/// along the object's path: each cluster of the directory can be
/// transferred and is in use.
pub proof fn lemma_parent_in_order(v: VolumeView, dir_path: Seq<u8>, name: Seq<u8>, parent: u32)
    requires
        well_formed_along(v, joined(dir_path, name)),
        forall|i: int| 0 <= i < name.len() ==> name[i] != SLASH,
        parent_outcome(v, dir_path) == Ok::<u32, FsError>(parent),
    ensures
        forall|c: u32|
            #![trigger chain_clusters(v.table, parent, v.table.len()).contains(c)]
            chain_clusters(v.table, parent, v.table.len()).contains(c) ==> cluster_ok(v, c)
                && next_cluster(v.table, c) != 0,
{
    let root = v.geometry.root_dir_cluster;
    if dir_path.len() > 0 {
        let home = traverse_outcome(v, dir_path)->Ok_0->Some_0;
        lemma_home_is_apart(v, dir_path, name, root, Set::empty(), home);
    }
}

/// What the plan of a creation gives: the new entry is whole and names the
/// cluster picked, the slot lies in a cluster of the directory, and the
/// volume with the entry stored and the cluster allocated is the volume
/// after a creation.
pub proof fn lemma_committed_is_created(v: VolumeView, dir_path: Seq<u8>, name: Seq<u8>, attribute: u8)
    requires
        volume_wf(v),
        plan_outcome(v, dir_path, name, attribute) is Ok,
    ensures
        ({
            let plan = plan_outcome(v, dir_path, name, attribute)->Ok_0;
            &&& parent_outcome(v, dir_path) == Ok::<u32, FsError>(plan.parent)
            &&& plan.entry.wf()
            &&& plan.entry.chain() == plan.cluster
            &&& cluster_ok(v, plan.slot_cluster)
            &&& chain_clusters(v.table, plan.parent, v.table.len()).contains(plan.slot_cluster)
            &&& volume_wf(committed(v, plan))
            &&& created_in(v, committed(v, plan), plan.slot_cluster, plan.cluster)
        }),
{
    let g = v.geometry;
    let plan = plan_outcome(v, dir_path, name, attribute)->Ok_0;
    let bytes = entry_bytes(plan.entry);
    let stored = VolumeView {
        disk: disk_with(v.disk, cluster_pos(g, plan.slot_cluster, plan.slot_offset), bytes),
        ..v
    };
    let w = committed(v, plan);
    let fresh = plan.cluster;
    lemma_free_slot_chain_facts(v, plan.parent, v.table.len());
    lemma_slot_in_chain(v, plan.parent, v.table.len());
    lemma_free_clusters(v.table, 2, 1);
    lemma_entry_round_trip(plan.entry);
    lemma_synced_len(stored.disk, plan.table, g, g.fat_num as nat);
    assert(((fresh / 65536) as u16) * 65536 + ((fresh % 65536) as u16) == fresh) by (bit_vector);
    assert(plan.table =~= v.table.update(fresh as int, END_OF_CHAIN));
    assert forall|c: u32| cluster_ok(v, c) && c != plan.slot_cluster && c != fresh implies #[trigger] cluster_data(
        w,
        c,
    ) == cluster_data(v, c) by {
        lemma_stored_cluster(v, plan.slot_cluster, plan.slot_offset, bytes, c);
        lemma_synced_cluster(stored, plan.table, c);
    }
}

/// An object that was placed in a directory leaves the volume in order:
/// a volume that was well formed along the path of the new object is so
/// once the object is found in its directory, and the path leads to it.
pub proof fn lemma_placed_in_order(
    v: VolumeView,
    w: VolumeView,
    dir_path: Seq<u8>,
    name: Seq<u8>,
    parent: u32,
    slot: u32,
    fresh: u32,
    made: Located,
)
    requires
        well_formed_along(v, joined(dir_path, name)),
        forall|i: int| 0 <= i < name.len() ==> name[i] != SLASH,
        parent_outcome(v, dir_path) == Ok::<u32, FsError>(parent),
        created_in(v, w, slot, fresh),
        chain_clusters(v.table, parent, v.table.len()).contains(slot),
        search_dir(w, parent, name) == Ok::<Option<Located>, FsError>(Some(made)),
        made.entry.chain() == fresh,
    ensures
        well_formed_along(w, joined(dir_path, name)),
        traverse_outcome(w, joined(dir_path, name)) == Ok::<Option<Located>, FsError>(Some(made)),
{
    let root = v.geometry.root_dir_cluster;
    if dir_path.len() == 0 {
        lemma_new_object_apart(v, w, name, root, Set::empty(), slot, fresh, made);
    } else {
        let home = traverse_outcome(v, dir_path)->Ok_0->Some_0;
        lemma_creation_keeps_way(v, w, dir_path, name, root, Set::empty(), home, slot, fresh, made);
    }
}

/// Creating a file keeps the volume in order: a volume that was well
/// formed along the path of the new file is so afterwards, and the path
/// leads to the file's entry. This holds for a valid 8.3 name without
/// slash that does not start with the byte zero.
pub proof fn lemma_created_file_in_order(v: VolumeView, dir_path: Seq<u8>, name: Seq<u8>)
    requires
        volume_wf(v),
        create_file_outcome(v, dir_path, name) is Ok,
        valid_short_name(name),
        forall|i: int| 0 <= i < name.len() ==> name[i] != SLASH,
        name.len() > 0 ==> name[0] != 0x00,
        well_formed_along(v, joined(dir_path, name)),
    ensures
        ({
            let w = create_file_outcome(v, dir_path, name)->Ok_0;
            let plan = plan_outcome(v, dir_path, name, 0x03)->Ok_0;
            &&& volume_wf(w)
            &&& well_formed_along(w, joined(dir_path, name))
            &&& traverse_outcome(w, joined(dir_path, name)) == Ok::<Option<Located>, FsError>(
                Some(
                    Located {
                        entry: plan.entry,
                        cluster: plan.slot_cluster,
                        offset: plan.slot_offset,
                    },
                ),
            )
            &&& created_in(v, w, plan.slot_cluster, plan.cluster)
        }),
{
    let plan = plan_outcome(v, dir_path, name, 0x03)->Ok_0;
    let w = committed(v, plan);
    let made = Located { entry: plan.entry, cluster: plan.slot_cluster, offset: plan.slot_offset };
    lemma_committed_is_created(v, dir_path, name, 0x03);
    lemma_created_is_found_in_directory(v, dir_path, name, 0x03);
    lemma_placed_in_order(v, w, dir_path, name, plan.parent, plan.slot_cluster, plan.cluster, made);
}

/// Creating a directory keeps the volume in order: a volume that was well
/// formed along the path of the new directory is so afterwards, and the
/// path leads to the directory's entry. This holds for a valid 8.3 name
/// without slash that does not start with the byte zero.
pub proof fn lemma_created_directory_in_order(v: VolumeView, dir_path: Seq<u8>, name: Seq<u8>)
    requires
        volume_wf(v),
        create_directory_outcome(v, dir_path, name) is Ok,
        valid_short_name(name),
        forall|i: int| 0 <= i < name.len() ==> name[i] != SLASH,
        name.len() > 0 ==> name[0] != 0x00,
        well_formed_along(v, joined(dir_path, name)),
    ensures
        ({
            let w = create_directory_outcome(v, dir_path, name)->Ok_0;
            let plan = plan_outcome(v, dir_path, name, 0x10)->Ok_0;
            &&& volume_wf(w)
            &&& well_formed_along(w, joined(dir_path, name))
            &&& traverse_outcome(w, joined(dir_path, name)) == Ok::<Option<Located>, FsError>(
                Some(
                    Located {
                        entry: plan.entry,
                        cluster: plan.slot_cluster,
                        offset: plan.slot_offset,
                    },
                ),
            )
            &&& created_in(v, w, plan.slot_cluster, plan.cluster)
            &&& cluster_ok(w, plan.cluster)
            &&& cluster_data(w, plan.cluster) == directory_start(
                v.geometry,
                plan.cluster,
                plan.parent,
            )
        }),
{
    let g = v.geometry;
    let len = v.table.len();
    let plan = plan_outcome(v, dir_path, name, 0x10)->Ok_0;
    let between = committed(v, plan);
    let w = create_directory_outcome(v, dir_path, name)->Ok_0;
    let start = directory_start(g, plan.cluster, plan.parent);
    let made = Located { entry: plan.entry, cluster: plan.slot_cluster, offset: plan.slot_offset };
    let place = chain_clusters(v.table, plan.parent, len);
    lemma_committed_is_created(v, dir_path, name, 0x10);
    lemma_created_is_found_in_directory(v, dir_path, name, 0x10);
    lemma_parent_in_order(v, dir_path, name, plan.parent);
    lemma_directory_kept(v, between, plan.slot_cluster, plan.cluster, plan.parent);
    assert(cluster_ok(between, plan.cluster));
    assert forall|c: u32| cluster_ok(v, c) implies #[trigger] cluster_data(w, c) == if c
        == plan.cluster {
        disk_with(cluster_data(between, c), 0, start)
    } else {
        cluster_data(between, c)
    } by {
        assert(cluster_ok(between, c));
        lemma_stored_cluster(between, plan.cluster, 0, start, c);
    }
    assert(cluster_data(w, plan.cluster) =~= start);
    // the search of the directory finds the entry as before the cluster was filled
    let reads = search_reads(between, name, plan.parent, len);
    lemma_reads_in_chain(between, name, plan.parent, len);
    assert forall|c: u32| #![trigger reads.contains(c)] reads.contains(c) implies (cluster_ok(
        between,
        c,
    ) ==> cluster_data(w, c) == cluster_data(between, c)) && next_cluster(w.table, c)
        == next_cluster(between.table, c) by {
        assert(place.contains(c));
    }
    lemma_search_frame(between, w, name, plan.parent, len);
    lemma_placed_in_order(v, w, dir_path, name, plan.parent, plan.slot_cluster, plan.cluster, made);
}

/// A directory in order admits a new name: a volume that is well formed
/// along the path of a directory whose clusters can be transferred and are
/// in use is well formed along that path, a slash and a name that the
/// directory does not hold.
pub proof fn lemma_directory_admits(
    v: VolumeView,
    front: Seq<u8>,
    name: Seq<u8>,
    dir: u32,
    seen: Set<u32>,
    home: Located,
)
    requires
        forall|i: int| 0 <= i < name.len() ==> name[i] != SLASH,
        path_wf(v, front, dir, seen),
        resolve(v, front, dir) == Ok::<Option<Located>, FsError>(Some(home)),
        home.entry.attribute == 0x10,
        forall|c: u32|
            #![trigger chain_clusters(v.table, home.entry.chain(), v.table.len()).contains(c)]
            chain_clusters(v.table, home.entry.chain(), v.table.len()).contains(c) ==> cluster_ok(
                v,
                c,
            ) && next_cluster(v.table, c) != 0,
        search_dir(v, home.entry.chain(), name) == Ok::<Option<Located>, FsError>(None),
    ensures
        path_wf(v, front + seq![SLASH] + name, dir, seen),
    decreases front.len(),
{
    let len = v.table.len();
    let path = front + seq![SLASH] + name;
    let chain = chain_clusters(v.table, dir, len);
    let inner = Set::new(|c: u32| seen.contains(c) || chain.contains(c));
    let first = search_dir(v, dir, head_part(front, SLASH))->Ok_0->Some_0;
    let place = chain_clusters(v.table, home.entry.chain(), len);
    lemma_joined_parts(front, name);
    lemma_one_part(name);
    if has_tail(front, SLASH) {
        lemma_directory_admits(v, tail_part(front, SLASH), name, first.entry.chain(), inner, home);
    } else {
        assert(first == home);
        assert forall|c: u32| #![trigger place.contains(c)] place.contains(c) implies cluster_ok(
            v,
            c,
        ) && !inner.contains(c) && next_cluster(v.table, c) != 0 by {
            assert(!seen.contains(c) && !chain.contains(c));
        }
        assert(path_wf(v, name, home.entry.chain(), inner));
    }
}

/// What is written to a new file in a new directory is read back: on a
/// volume whose root directory is in order, after a directory was created
/// in the root directory, a file in that directory, and bytes were
/// appended to the file, reading the file gives those bytes. This holds
/// for valid 8.3 names without slash that do not start with the byte zero,
/// and for at least one byte.
pub proof fn lemma_new_file_is_read_back(
    v: VolumeView,
    dir_name: Seq<u8>,
    file_name: Seq<u8>,
    data: Seq<u8>,
    n: int,
    room: int,
)
    requires
        volume_wf(v),
        well_formed_along(v, dir_name),
        valid_short_name(dir_name),
        valid_short_name(file_name),
        forall|i: int| 0 <= i < dir_name.len() ==> dir_name[i] != SLASH,
        forall|i: int| 0 <= i < file_name.len() ==> file_name[i] != SLASH,
        dir_name.len() > 0 && dir_name[0] != 0x00,
        file_name.len() > 0 ==> file_name[0] != 0x00,
        data.len() > 0,
        n >= data.len(),
        room >= data.len(),
        create_directory_outcome(v, Seq::<u8>::empty(), dir_name) is Ok,
        create_file_outcome(
            create_directory_outcome(v, Seq::<u8>::empty(), dir_name)->Ok_0,
            dir_name,
            file_name,
        ) is Ok,
        write_outcome(
            create_file_outcome(
                create_directory_outcome(v, Seq::<u8>::empty(), dir_name)->Ok_0,
                dir_name,
                file_name,
            )->Ok_0,
            dir_name + seq![SLASH] + file_name,
            data,
        ) is Ok,
    ensures
        read_outcome(
            write_outcome(
                create_file_outcome(
                    create_directory_outcome(v, Seq::<u8>::empty(), dir_name)->Ok_0,
                    dir_name,
                    file_name,
                )->Ok_0,
                dir_name + seq![SLASH] + file_name,
                data,
            )->Ok_0,
            dir_name + seq![SLASH] + file_name,
            n,
            room,
        ) == Ok::<Seq<u8>, FsError>(data),
{
    let none = Seq::<u8>::empty();
    let path = dir_name + seq![SLASH] + file_name;
    let len = v.table.len();
    let root = v.geometry.root_dir_cluster;
    let v1 = create_directory_outcome(v, none, dir_name)->Ok_0;
    let plan0 = plan_outcome(v, none, dir_name, 0x10)->Ok_0;
    let home = Located {
        entry: plan0.entry,
        cluster: plan0.slot_cluster,
        offset: plan0.slot_offset,
    };
    assert(joined(none, dir_name) == dir_name);
    assert(joined(dir_name, file_name) == path);
    // the new directory
    lemma_created_directory_in_order(v, none, dir_name);
    lemma_committed_is_created(v, none, dir_name, 0x10);
    lemma_name_round_trip(dir_name);
    let place = chain_clusters(v1.table, plan0.cluster, len);
    assert(next_cluster(v1.table, plan0.cluster) == 0x0FFF_FFFF);
    assert(chain_clusters(v1.table, 0x0FFF_FFFF, (len - 1) as nat) =~= Seq::<u32>::empty());
    assert(place =~= seq![plan0.cluster]);
    assert(home.entry.attribute == 0x10);
    lemma_name_round_trip(file_name);
    lemma_first_index_bounds(file_name, crate::fat32::short_name::DOT);
    assert(search_dir(v1, plan0.cluster, file_name) == Ok::<Option<Located>, FsError>(None));
    lemma_directory_admits(v1, dir_name, file_name, root, Set::empty(), home);
    // the new file
    let v2 = create_file_outcome(v1, dir_name, file_name)->Ok_0;
    let plan1 = plan_outcome(v1, dir_name, file_name, 0x03)->Ok_0;
    let file = Located {
        entry: plan1.entry,
        cluster: plan1.slot_cluster,
        offset: plan1.slot_offset,
    };
    lemma_created_file_in_order(v1, dir_name, file_name);
    lemma_committed_is_created(v1, dir_name, file_name, 0x03);
    assert(file_at(v2, path) == file);
    let kept = file_chain(v2.table, plan1.cluster);
    assert(next_cluster(v2.table, plan1.cluster) == 0x0FFF_FFFF);
    assert(chain_clusters(v2.table, 0x0FFF_FFFF, (len - 1) as nat) =~= Seq::<u32>::empty());
    assert(kept =~= seq![plan1.cluster]);
    // the bytes go to the file's cluster, which can therefore be transferred
    let work = append_plan(v2, path, data.len() as int)->Ok_0;
    assert(work.chain[0] == kept[0]);
    lemma_append_ok_at(v2, work.chain, data.len() as int, 0, 0, 0);
    assert(0int / cluster_bytes(v2.geometry) == 0);
    assert(file_sound(v2, plan1.cluster, 0));
    assert(file_in_order(v2, path));
    lemma_written_is_read(v2, path, data, n, room);
    assert(file_content(v2, file) + data =~= data);
}

} // verus!
