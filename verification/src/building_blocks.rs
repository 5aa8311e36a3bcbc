//! The blocks of a building scene: identifiers, merge groups and the mesh-dirty flag.
//!
//! A block's shape, placement and material (`B`) are the caller's; this store keeps the
//! blocks in the order they were added, finds them by identifier (the first block with an
//! identifier wins), and hands out merge groups.

use vstd::prelude::*;

verus! {

/// A block of the scene with its identifier and merge group.
#[derive(Clone, Copy, Debug)]
pub struct BlockEntry<B> {
    /// Identifier of the block.
    pub id: u32,
    /// Merge group, if the block belongs to one.
    pub merged_group_id: Option<u32>,
    /// The block.
    pub block: B,
}

/// `i` is the first position of `entries` holding identifier `id`.
pub open spec fn first_with_id<B>(entries: Seq<BlockEntry<B>>, id: u32, i: int) -> bool {
    &&& 0 <= i < entries.len()
    &&& entries[i].id == id
    &&& forall|k: int| 0 <= k < i ==> #[trigger] entries[k].id != id
}

/// No position of `entries` holds identifier `id`.
pub open spec fn lacks_id<B>(entries: Seq<BlockEntry<B>>, id: u32) -> bool {
    forall|k: int| 0 <= k < entries.len() ==> #[trigger] entries[k].id != id
}

/// `entries` after putting the first block with each identifier of `ids` into `group`.
pub open spec fn grouped<B>(entries: Seq<BlockEntry<B>>, ids: Seq<u32>, group: u32) -> Seq<BlockEntry<B>> {
    Seq::new(
        entries.len(),
        |k: int|
            if ids.contains(entries[k].id) && first_with_id(entries, entries[k].id, k) {
                BlockEntry { merged_group_id: Some(group), ..entries[k] }
            } else {
                entries[k]
            },
    )
}

/// Putting blocks into a merge group keeps the order of the blocks, each block's identifier
/// and contents, and so where each identifier first occurs and which are absent.
pub proof fn lemma_grouped_keeps_ids<B>(start: Seq<BlockEntry<B>>, ids: Seq<u32>, group: u32)
    ensures
        grouped(start, ids, group).len() == start.len(),
        forall|k: int| 0 <= k < start.len() ==> (#[trigger] grouped(start, ids, group)[k]).id == start[k].id,
        forall|k: int| 0 <= k < start.len() ==> (#[trigger] grouped(start, ids, group)[k]).block == start[k].block,
        forall|x: u32, k: int| first_with_id(start, x, k) == #[trigger] first_with_id(grouped(start, ids, group), x, k),
        forall|x: u32| lacks_id(start, x) == #[trigger] lacks_id(grouped(start, ids, group), x),
{
    let g = grouped(start, ids, group);
    assert forall|k: int| 0 <= k < start.len() implies (#[trigger] g[k]).id == start[k].id
        && g[k].block == start[k].block by {}
    assert forall|x: u32, k: int| first_with_id(start, x, k) == #[trigger] first_with_id(g, x, k) by {
        if first_with_id(start, x, k) {
            assert forall|m: int| 0 <= m < k implies #[trigger] g[m].id != x by {
                assert(start[m].id != x);
            }
        }
        if first_with_id(g, x, k) {
            assert forall|m: int| 0 <= m < k implies #[trigger] start[m].id != x by {
                assert(g[m].id != x);
            }
        }
    }
    assert forall|x: u32| lacks_id(start, x) == #[trigger] lacks_id(g, x) by {
        if lacks_id(start, x) {
            assert forall|m: int| 0 <= m < g.len() implies #[trigger] g[m].id != x by {
                assert(start[m].id != x);
            }
        }
        if lacks_id(g, x) {
            assert forall|m: int| 0 <= m < start.len() implies #[trigger] start[m].id != x by {
                assert(g[m].id != x);
            }
        }
    }
}

/// A block added under an identifier that no block has yet is the one found under it
/// afterwards.
pub proof fn lemma_added_block_found<B>(entries: Seq<BlockEntry<B>>, entry: BlockEntry<B>)
    requires
        lacks_id(entries, entry.id),
    ensures
        first_with_id(entries.push(entry), entry.id, entries.len() as int),
        entries.push(entry)[entries.len() as int] == entry,
{
    assert forall|k: int| 0 <= k < entries.len() implies #[trigger] entries.push(entry)[k].id != entry.id by {
        assert(entries.push(entry)[k] == entries[k]);
    }
}

/// One more identifier that is present puts its first block into the group.
proof fn lemma_group_found<B>(
    start: Seq<BlockEntry<B>>,
    ids: Seq<u32>,
    id: u32,
    group: u32,
    pos: int,
    before: Seq<BlockEntry<B>>,
    after: Seq<BlockEntry<B>>,
)
    requires
        before == grouped(start, ids, group),
        first_with_id(before, id, pos),
        after == before.update(pos, BlockEntry { merged_group_id: Some(group), ..before[pos] }),
    ensures
        after == grouped(start, ids.push(id), group),
{
    lemma_grouped_keeps_ids(start, ids, group);
    let target = grouped(start, ids.push(id), group);
    assert(first_with_id(start, id, pos));
    assert forall|k: int| 0 <= k < start.len() implies #[trigger] after[k] == target[k] by {
        assert(ids.push(id).contains(start[k].id) <==> (ids.contains(start[k].id) || start[k].id == id)) by {
            if ids.push(id).contains(start[k].id) {
                let w = choose|w: int| 0 <= w < ids.push(id).len() && ids.push(id)[w] == start[k].id;
                if w < ids.len() {
                    assert(ids[w] == start[k].id);
                }
            }
            if ids.contains(start[k].id) {
                let w = choose|w: int| 0 <= w < ids.len() && ids[w] == start[k].id;
                assert(ids.push(id)[w] == start[k].id);
            }
            if start[k].id == id {
                assert(ids.push(id)[ids.len() as int] == id);
            }
        }
        if k == pos {
        } else if start[k].id == id {
            assert(!first_with_id(start, id, k));
        }
    }
    assert(after =~= target);
}

/// One more identifier that is absent changes nothing.
proof fn lemma_group_missing<B>(start: Seq<BlockEntry<B>>, ids: Seq<u32>, id: u32, group: u32)
    requires
        lacks_id(grouped(start, ids, group), id),
    ensures
        grouped(start, ids, group) == grouped(start, ids.push(id), group),
{
    lemma_grouped_keeps_ids(start, ids, group);
    let before = grouped(start, ids, group);
    let target = grouped(start, ids.push(id), group);
    assert forall|k: int| 0 <= k < start.len() implies #[trigger] before[k] == target[k] by {
        assert(start[k].id != id);
        assert(ids.push(id).contains(start[k].id) <==> ids.contains(start[k].id)) by {
            if ids.push(id).contains(start[k].id) {
                let w = choose|w: int| 0 <= w < ids.push(id).len() && ids.push(id)[w] == start[k].id;
                if w < ids.len() {
                    assert(ids[w] == start[k].id);
                }
            }
            if ids.contains(start[k].id) {
                let w = choose|w: int| 0 <= w < ids.len() && ids[w] == start[k].id;
                assert(ids.push(id)[w] == start[k].id);
            }
        }
    }
    assert(before =~= target);
}

/// The blocks of a scene.
pub struct BuildingBlockManager<B> {
    blocks: Vec<BlockEntry<B>>,
    next_group_id: u32,
    mesh_dirty: bool,
}

impl<B> BuildingBlockManager<B> {
    /// The blocks, in the order they were added.
    pub closed spec fn entries(&self) -> Seq<BlockEntry<B>> {
        self.blocks@
    }

    /// The merge group `create_merge_group` hands out next.
    pub closed spec fn next_group(&self) -> u32 {
        self.next_group_id
    }

    /// Whether the combined mesh must be rebuilt.
    pub closed spec fn dirty(&self) -> bool {
        self.mesh_dirty
    }

    /// No block; group 0 comes first; the mesh is up to date.
    pub fn new() -> (manager: BuildingBlockManager<B>)
        ensures
            manager.entries() == Seq::<BlockEntry<B>>::empty(),
            manager.next_group() == 0,
            !manager.dirty(),
    {
        BuildingBlockManager { blocks: Vec::new(), next_group_id: 0, mesh_dirty: false }
    }

    /// Adds `entry` after the others and returns its identifier. The mesh must be rebuilt.
    pub fn add_block(&mut self, entry: BlockEntry<B>) -> (added: u32)
        ensures
            added == entry.id,
            final(self).entries() == old(self).entries().push(entry),
            final(self).next_group() == old(self).next_group(),
            final(self).dirty(),
    {
        let id = entry.id;
        self.blocks.push(entry);
        self.mesh_dirty = true;
        id
    }

    /// Position of the first block with identifier `id`, if any.
    fn position_of(&self, id: u32) -> (pos: Option<usize>)
        ensures
            match pos {
                Some(i) => first_with_id(self.entries(), id, i as int),
                None => lacks_id(self.entries(), id),
            },
    {
        let mut i: usize = 0;
        while i < self.blocks.len()
            invariant
                i <= self.blocks@.len(),
                forall|k: int| 0 <= k < i ==> #[trigger] self.blocks@[k].id != id,
            decreases self.blocks@.len() - i,
        {
            if self.blocks[i].id == id {
                return Some(i);
            }
            i = i + 1;
        }
        None
    }

    /// Removes the first block with identifier `id` and returns it (the mesh must then be
    /// rebuilt); `None`, changing nothing, when there is none.
    pub fn remove_block(&mut self, id: u32) -> (removed: Option<BlockEntry<B>>)
        ensures
            final(self).next_group() == old(self).next_group(),
            match removed {
                Some(entry) => exists|i: int| {
                    &&& first_with_id(old(self).entries(), id, i)
                    &&& entry == old(self).entries()[i]
                    &&& final(self).entries() == old(self).entries().remove(i)
                    &&& final(self).dirty()
                },
                None => {
                    &&& lacks_id(old(self).entries(), id)
                    &&& final(self).entries() == old(self).entries()
                    &&& final(self).dirty() == old(self).dirty()
                },
            },
    {
        match self.position_of(id) {
            Some(pos) => {
                self.mesh_dirty = true;
                let entry = self.blocks.remove(pos);
                proof {
                    assert(first_with_id(old(self).entries(), id, pos as int));
                }
                Some(entry)
            },
            None => None,
        }
    }

    /// The first block with identifier `id`, if any.
    pub fn get_block(&self, id: u32) -> (entry: Option<&BlockEntry<B>>)
        ensures
            match entry {
                Some(e) => exists|i: int| first_with_id(self.entries(), id, i) && *e == self.entries()[i],
                None => lacks_id(self.entries(), id),
            },
    {
        match self.position_of(id) {
            Some(pos) => Some(&self.blocks[pos]),
            None => None,
        }
    }

    /// The first block with identifier `id`, for changing it (its identifier and group
    /// stay as they are); `None` when there is none.
    pub fn get_block_mut(&mut self, id: u32) -> (block: Option<&mut B>)
        ensures
            final(self).next_group() == old(self).next_group(),
            final(self).dirty() == old(self).dirty(),
            match block {
                Some(b) => exists|i: int| {
                    &&& first_with_id(old(self).entries(), id, i)
                    &&& *b == old(self).entries()[i].block
                    &&& final(self).entries() == old(self).entries().update(
                        i,
                        BlockEntry { block: *final(b), ..old(self).entries()[i] },
                    )
                },
                None => lacks_id(old(self).entries(), id) && final(self).entries() == old(self).entries(),
            },
    {
        match self.position_of(id) {
            Some(pos) => {
                proof {
                    assert(first_with_id(old(self).entries(), id, pos as int));
                }
                Some(&mut self.blocks[pos].block)
            },
            None => None,
        }
    }

    /// The blocks, in the order they were added.
    pub fn blocks(&self) -> (blocks: &[BlockEntry<B>])
        ensures
            blocks@ == self.entries(),
    {
        self.blocks.as_slice()
    }

    /// Whether the combined mesh must be rebuilt.
    pub fn needs_mesh_update(&self) -> (dirty: bool)
        ensures
            dirty == self.dirty(),
    {
        self.mesh_dirty
    }

    /// Records that the combined mesh was rebuilt.
    pub fn clear_dirty(&mut self)
        ensures
            final(self).entries() == old(self).entries(),
            final(self).next_group() == old(self).next_group(),
            !final(self).dirty(),
    {
        self.mesh_dirty = false;
    }

    /// Puts the first block with each of `block_ids` (those present) into a new merge group
    /// and returns the group; the mesh must be rebuilt.
    pub fn create_merge_group(&mut self, block_ids: &[u32]) -> (group: u32)
        requires
            old(self).next_group() < u32::MAX,
        ensures
            group == old(self).next_group(),
            final(self).next_group() == old(self).next_group() + 1,
            final(self).entries() == grouped(old(self).entries(), block_ids@, group),
            final(self).dirty(),
    {
        let group = self.next_group_id;
        self.next_group_id = self.next_group_id + 1;
        let ghost start = self.blocks@;
        proof {
            assert(block_ids@.take(0) =~= Seq::<u32>::empty());
            assert(grouped(start, Seq::<u32>::empty(), group) =~= start);
        }
        let mut j: usize = 0;
        while j < block_ids.len()
            invariant
                j <= block_ids@.len(),
                self.next_group_id == old(self).next_group_id + 1,
                self.blocks@ == grouped(start, block_ids@.take(j as int), group),
            decreases block_ids@.len() - j,
        {
            let id = block_ids[j];
            let ghost before = self.blocks@;
            proof {
                assert(block_ids@.take(j + 1) =~= block_ids@.take(j as int).push(id));
            }
            match self.position_of(id) {
                Some(pos) => {
                    self.blocks[pos].merged_group_id = Some(group);
                    proof {
                        lemma_group_found(start, block_ids@.take(j as int), id, group, pos as int, before, self.blocks@);
                    }
                },
                None => {
                    proof {
                        lemma_group_missing(start, block_ids@.take(j as int), id, group);
                    }
                },
            }
            j = j + 1;
        }
        proof {
            assert(block_ids@.take(block_ids@.len() as int) =~= block_ids@);
        }
        self.mesh_dirty = true;
        group
    }

    /// Number of blocks.
    pub fn len(&self) -> (n: usize)
        ensures
            n == self.entries().len(),
    {
        self.blocks.len()
    }

    /// Whether there is no block.
    pub fn is_empty(&self) -> (empty: bool)
        ensures
            empty == (self.entries().len() == 0),
    {
        self.blocks.len() == 0
    }
}

impl<B> Default for BuildingBlockManager<B> {
    /// No block; group 0 comes first; the mesh is up to date.
    fn default() -> (manager: BuildingBlockManager<B>)
        ensures
            manager.entries() == Seq::<BlockEntry<B>>::empty(),
            manager.next_group() == 0,
            !manager.dirty(),
    {
        BuildingBlockManager::new()
    }
}

} // verus!
