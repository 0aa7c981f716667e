//! What storage holds of a room, and the rules by which it is written.

use vstd::prelude::*;
use crate::compression::{bytes_of, compress_lz4, decompress_lz4, lz4_block, lz4_unblock};
use crate::vector::IVec2;

verus! {

/// Seconds after which a stored snapshot is no longer overwritten: four
/// hours.
pub const SECONDS_BETWEEN_SNAPSHOTS: u32 = 14400;

/// The version of the storage layout that the engine writes.
pub const DATABASE_VERSION: u32 = 1;

/// How a stored blob is compressed.
#[derive(Clone, Copy, PartialEq, Eq, Structural, Debug)]
pub enum CompressionType {
    Lz4,
}

impl CompressionType {
    pub open spec fn code_spec(self) -> u8 {
        1
    }

    /// The number that stands for this compression in storage.
    pub fn code(self) -> (c: u8)
        ensures
            c == self.code_spec(),
    {
        1
    }

    /// The compression that `code` stands for, if any.
    pub fn try_from(code: u8) -> (kind: Option<CompressionType>)
        ensures
            kind == if code == 1 {
                Some(CompressionType::Lz4)
            } else {
                None::<CompressionType>
            },
    {
        if code == 1 {
            Some(CompressionType::Lz4)
        } else {
            None
        }
    }
}

/// A stored snapshot of one chunk.
pub struct ChunkDatabaseRecord {
    pub compression_type: CompressionType,
    /// Unix time, in seconds, at which the snapshot was first stored.
    pub created_at: u64,
    /// Unix time, in seconds, at which the snapshot was last written.
    pub modified_at: u64,
    pub data: Vec<u8>,
}

/// A stored preview tile.
pub struct PreviewDatabaseRecord {
    pub data: Vec<u8>,
}

/// How a chunk is written to storage.
#[derive(Clone, Copy, PartialEq, Eq, Structural, Debug)]
pub enum SaveMode {
    /// As a new snapshot row.
    Insert,
    /// Over the row with this id.
    Update(i64),
}

/// One row of the table of chunks.
pub struct ChunkRow {
    pub x: i32,
    pub y: i32,
    pub data: Vec<u8>,
    /// Unix time, in seconds, of the last write.
    pub modified: u64,
    /// Unix time, in seconds, of the first write.
    pub created: u64,
    pub compression: CompressionType,
}

/// A model of the table of chunks, held in memory: every snapshot of every
/// chunk, in the order in which the rows were inserted. It says what a
/// store has to do with its rows, and the rule of the snapshots is proved
/// of it; a server keeps its rows in a database file and decides by
/// `chunk_save_mode` as the model does.
pub struct ChunkTable {
    pub rows: Vec<ChunkRow>,
}

/// How a chunk is written where its newest snapshot was created at
/// `latest_created`: over that snapshot while it is no older than four
/// hours, as a new snapshot else.
pub open spec fn save_mode(latest: Option<(u64, i64)>, now: u64) -> SaveMode {
    match latest {
        Some((created, rowid)) => if now - created > 14400 {
            SaveMode::Insert
        } else {
            SaveMode::Update(rowid)
        },
        None => SaveMode::Insert,
    }
}

/// How a chunk is written at the time `now`: see `save_mode`.
pub fn chunk_save_mode(latest: Option<(u64, i64)>, now: u64) -> (mode: SaveMode)
    ensures
        mode == save_mode(latest, now),
{
    match latest {
        Some((created, rowid)) => {
            if now > created && now - created > SECONDS_BETWEEN_SNAPSHOTS as u64 {
                SaveMode::Insert
            } else {
                SaveMode::Update(rowid)
            }
        },
        None => SaveMode::Insert,
    }
}

/// How a chunk is written now, by the system clock: as `chunk_save_mode`
/// says for the time that the clock gives, whatever that time is.
pub fn chunk_save_mode_now(latest: Option<(u64, i64)>) -> (mode: SaveMode)
    ensures
        exists|now: u64| mode == #[trigger] save_mode(latest, now),
{
    let now = crate::time::get_unix_timestamp();
    let mode = chunk_save_mode(latest, now);
    assert(mode == save_mode(latest, now));
    mode
}

/// Whether storage of the version `db_version` holds chunks in the old
/// layout, which are converted before use.
pub fn needs_migration(db_version: u32) -> (needed: bool)
    ensures
        needed == (db_version == 0),
{
    db_version == 0
}

/// An RGB image as RGBA, every pixel opaque.
pub open spec fn rgba_of_rgb(rgb: Seq<u8>) -> Seq<u8> {
    Seq::new(
        (rgb.len() / 3 * 4) as nat,
        |i: int|
            if i % 4 == 3 {
                255u8
            } else {
                rgb[(i / 4) * 3 + i % 4]
            },
    )
}

/// An RGB image as RGBA, every pixel opaque.
pub fn rgb_to_rgba(rgb: &[u8]) -> (rgba: Vec<u8>)
    requires
        rgb@.len() % 3 == 0,
        rgb@.len() <= 0x3000_0000,
    ensures
        rgba@ == rgba_of_rgb(rgb@),
{
    let pixels = rgb.len() / 3;
    let mut rgba: Vec<u8> = Vec::with_capacity(pixels * 4);
    let mut p: usize = 0;
    while p < pixels
        invariant
            p <= pixels,
            pixels == rgb@.len() / 3,
            rgb@.len() % 3 == 0,
            rgb@.len() <= 0x3000_0000,
            rgba@.len() == p * 4,
            forall|i: int| 0 <= i < p * 4 ==> rgba@[i] == rgba_of_rgb(rgb@)[i],
        decreases pixels - p,
    {
        rgba.push(rgb[p * 3]);
        rgba.push(rgb[p * 3 + 1]);
        rgba.push(rgb[p * 3 + 2]);
        rgba.push(255);
        p += 1;
    }
    assert(rgba@ =~= rgba_of_rgb(rgb@));
    rgba
}

/// What a stored chunk of the old layout becomes in the new one: its RGB
/// image as RGBA. A block that does not decode to a whole chunk image is
/// left as it is.
pub fn migrate_chunk_to_version_1(data: &[u8]) -> (converted: Option<Vec<u8>>)
    ensures
        converted is Some <==> (lz4_unblock(data@, 196608) matches Some(rgb) && rgb.len() == 196608),
        converted matches Some(block) ==> block@ == lz4_block(
            rgba_of_rgb(lz4_unblock(data@, 196608)->Some_0),
        ),
{
    match decompress_lz4(data, 196608) {
        Some(rgb) => {
            if rgb.len() != 196608 {
                return None;
            }
            let rgba = rgb_to_rgba(rgb.as_slice());
            Some(compress_lz4(rgba.as_slice()))
        },
        None => None,
    }
}

impl ChunkTable {
    /// The row at `index` holds a snapshot of the chunk at `pos`.
    pub open spec fn row_at(&self, index: int, pos: IVec2) -> bool {
        0 <= index < self.rows@.len() && self.rows@[index].x == pos.x && self.rows@[index].y
            == pos.y
    }

    /// The row at `index` is the snapshot of the chunk at `pos` that was
    /// created last; of two created at the same time, the earlier row.
    pub open spec fn newest_created(&self, index: int, pos: IVec2) -> bool {
        &&& self.row_at(index, pos)
        &&& forall|j: int|
            self.row_at(j, pos) ==> (#[trigger] self.rows@[j]).created < self.rows@[index].created
                || (self.rows@[j].created == self.rows@[index].created && index <= j)
    }

    /// The row at `index` is the snapshot of the chunk at `pos` that was
    /// written last; of two written at the same time, the later row.
    pub open spec fn newest_modified(&self, index: int, pos: IVec2) -> bool {
        &&& self.row_at(index, pos)
        &&& forall|j: int|
            self.row_at(j, pos) ==> (#[trigger] self.rows@[j]).modified < self.rows@[index].modified
                || (self.rows@[j].modified == self.rows@[index].modified && j <= index)
    }

    /// A table without rows.
    pub fn new() -> (table: Self)
        ensures
            table.rows@.len() == 0,
    {
        ChunkTable { rows: Vec::new() }
    }

    /// The snapshot of the chunk at `pos` that was created last.
    fn find_newest_created(&self, pos: IVec2) -> (found: Option<usize>)
        ensures
            found matches Some(i) ==> self.newest_created(i as int, pos),
            found is None ==> forall|j: int| !self.row_at(j, pos),
    {
        let mut best: Option<usize> = None;
        let mut i: usize = 0;
        while i < self.rows.len()
            invariant
                i <= self.rows@.len(),
                best matches Some(b) ==> b < i && self.row_at(b as int, pos) && forall|j: int|
                    0 <= j < i && self.row_at(j, pos) ==> (#[trigger] self.rows@[j]).created
                        < self.rows@[b as int].created || (self.rows@[j].created
                        == self.rows@[b as int].created && b <= j),
                best is None ==> forall|j: int| 0 <= j < i ==> !self.row_at(j, pos),
            decreases self.rows@.len() - i,
        {
            if self.rows[i].x == pos.x && self.rows[i].y == pos.y {
                match best {
                    Some(b) => {
                        if self.rows[i].created > self.rows[b].created {
                            best = Some(i);
                        }
                    },
                    None => {
                        best = Some(i);
                    },
                }
            }
            i += 1;
        }
        best
    }

    /// The snapshot of the chunk at `pos` that was written last.
    fn find_newest_modified(&self, pos: IVec2) -> (found: Option<usize>)
        ensures
            found matches Some(i) ==> self.newest_modified(i as int, pos),
            found is None ==> forall|j: int| !self.row_at(j, pos),
    {
        let mut best: Option<usize> = None;
        let mut i: usize = 0;
        while i < self.rows.len()
            invariant
                i <= self.rows@.len(),
                best matches Some(b) ==> b < i && self.row_at(b as int, pos) && forall|j: int|
                    0 <= j < i && self.row_at(j, pos) ==> (#[trigger] self.rows@[j]).modified
                        < self.rows@[b as int].modified || (self.rows@[j].modified
                        == self.rows@[b as int].modified && j <= b),
                best is None ==> forall|j: int| 0 <= j < i ==> !self.row_at(j, pos),
            decreases self.rows@.len() - i,
        {
            if self.rows[i].x == pos.x && self.rows[i].y == pos.y {
                match best {
                    Some(b) => {
                        if self.rows[i].modified >= self.rows[b].modified {
                            best = Some(i);
                        }
                    },
                    None => {
                        best = Some(i);
                    },
                }
            }
            i += 1;
        }
        best
    }

    /// Stores `data` as the chunk at `pos` at the time `now`: over the
    /// newest snapshot of the chunk where that was created no more than four
    /// hours before, as a new snapshot else. Returns the row written.
    pub fn chunk_save_data(&mut self, pos: IVec2, data: Vec<u8>, compression_type: CompressionType, now: u64) -> (written:
        usize)
        ensures
            written < final(self).rows@.len(),
            final(self).rows@[written as int].x == pos.x,
            final(self).rows@[written as int].y == pos.y,
            final(self).rows@[written as int].data@ == data@,
            final(self).rows@[written as int].modified == now,
            final(self).rows@[written as int].compression == compression_type,
            forall|j: int|
                0 <= j < old(self).rows@.len() && j != written ==> #[trigger] final(self).rows@[j]
                    == old(self).rows@[j],
            (exists|i: int|
                old(self).newest_created(i, pos) && now - old(self).rows@[i].created <= 14400) ==> {
                &&& final(self).rows@.len() == old(self).rows@.len()
                &&& old(self).newest_created(written as int, pos)
                &&& final(self).rows@[written as int].created == old(self).rows@[written as int].created
            },
            !(exists|i: int|
                old(self).newest_created(i, pos) && now - old(self).rows@[i].created <= 14400) ==> {
                &&& final(self).rows@.len() == old(self).rows@.len() + 1
                &&& written == old(self).rows@.len()
                &&& final(self).rows@[written as int].created == now
            },
    {
        let newest = self.find_newest_created(pos);
        let latest = match newest {
            Some(i) => Some((self.rows[i].created, i as i64)),
            None => None,
        };
        proof {
            assert forall|i: int, k: int|
                self.newest_created(i, pos) && self.newest_created(k, pos) implies i == k by {
                assert(self.row_at(i, pos) && self.row_at(k, pos));
                let a = self.rows@[i];
                let b = self.rows@[k];
            }
        }
        match (chunk_save_mode(latest, now), newest) {
            (SaveMode::Update(_), Some(i)) => {
                self.rows[i].modified = now;
                self.rows[i].data = data;
                self.rows[i].compression = compression_type;
                proof {
                    assert(old(self).newest_created(i as int, pos));
                }
                i
            },
            _ => {
                proof {
                    if exists|i: int|
                        old(self).newest_created(i, pos) && now - old(self).rows@[i].created
                            <= 14400 {
                        let i = choose|i: int|
                            old(self).newest_created(i, pos) && now - old(self).rows@[i].created
                                <= 14400;
                        assert(newest is Some);
                        assert(i == newest->Some_0);
                    }
                }
                self.rows.push(
                    ChunkRow {
                        x: pos.x,
                        y: pos.y,
                        data,
                        modified: now,
                        created: now,
                        compression: compression_type,
                    },
                );
                self.rows.len() - 1
            },
        }
    }

    /// The snapshot of the chunk at `pos` that was written last, if the
    /// table holds any.
    pub fn chunk_load_data(&self, pos: IVec2) -> (record: Option<ChunkDatabaseRecord>)
        ensures
            record is None <==> forall|j: int| !self.row_at(j, pos),
            record matches Some(r) ==> exists|i: int|
                self.newest_modified(i, pos) && r.data@ == (#[trigger] self.rows@[i]).data@
                    && r.created_at == self.rows@[i].created && r.modified_at
                    == self.rows@[i].modified && r.compression_type == self.rows@[i].compression,
    {
        match self.find_newest_modified(pos) {
            Some(i) => {
                let data = crate::chunk::chunk::clone_bytes(&self.rows[i].data);
                assert(self.row_at(i as int, pos));
                Some(
                    ChunkDatabaseRecord {
                        compression_type: self.rows[i].compression,
                        created_at: self.rows[i].created,
                        modified_at: self.rows[i].modified,
                        data,
                    },
                )
            },
            None => None,
        }
    }

    /// The position of every chunk of which the table holds a snapshot, each
    /// once, in the order of the first snapshots.
    pub fn chunk_list_all(&self) -> (positions: Vec<IVec2>)
        ensures
            positions@.no_duplicates(),
            forall|p: IVec2| positions@.contains(p) <==> exists|j: int| #[trigger] self.row_at(j, p),
    {
        let mut positions: Vec<IVec2> = Vec::new();
        let mut i: usize = 0;
        while i < self.rows.len()
            invariant
                i <= self.rows@.len(),
                positions@.no_duplicates(),
                forall|p: IVec2|
                    positions@.contains(p) <==> exists|j: int| 0 <= j < i && #[trigger] self.row_at(j, p),
            decreases self.rows@.len() - i,
        {
            let pos = IVec2 { x: self.rows[i].x, y: self.rows[i].y };
            let ghost before = positions@;
            assert(self.row_at(i as int, pos));
            if !crate::chunk::system::list_contains(&positions, pos) {
                positions.push(pos);
                proof {
                    assert(positions@[before.len() as int] == pos);
                    assert forall|a: int, b: int|
                        0 <= a < positions@.len() && 0 <= b < positions@.len() && a != b implies positions@[a]
                        != positions@[b] by {
                        if a < before.len() {
                            assert(before[a] == positions@[a]);
                        }
                        if b < before.len() {
                            assert(before[b] == positions@[b]);
                        }
                    }
                }
            }
            proof {
                assert forall|p: IVec2| positions@.contains(p) <==> exists|j: int|
                    0 <= j < i + 1 && #[trigger] self.row_at(j, p) by {
                    if positions@.contains(p) {
                        let w = choose|w: int| 0 <= w < positions@.len() && positions@[w] == p;
                        if w < before.len() {
                            assert(before[w] == p);
                            assert(before.contains(p));
                            let j = choose|j: int| 0 <= j < i && #[trigger] self.row_at(j, p);
                            assert(0 <= j < i + 1 && self.row_at(j, p));
                        } else {
                            assert(p == pos);
                            assert(self.row_at(i as int, p));
                        }
                    }
                    if exists|j: int| 0 <= j < i + 1 && #[trigger] self.row_at(j, p) {
                        let j = choose|j: int| 0 <= j < i + 1 && #[trigger] self.row_at(j, p);
                        if j < i {
                            assert(before.contains(p));
                            let w = choose|w: int| 0 <= w < before.len() && before[w] == p;
                            assert(positions@[w] == p);
                        } else {
                            assert(p == pos);
                            if before.contains(p) {
                                let w = choose|w: int| 0 <= w < before.len() && before[w] == p;
                                assert(positions@[w] == p);
                            }
                        }
                    }
                }
            }
            i += 1;
        }
        positions
    }
}

/// A chunk saved at a time that is no earlier than any write to it so far
/// is the snapshot found when the chunk is loaded next.
pub proof fn lemma_saved_chunk_is_loaded(before: ChunkTable, after: ChunkTable, pos: IVec2, written: int, now: u64)
    requires
        0 <= written < after.rows@.len(),
        after.rows@[written].x == pos.x,
        after.rows@[written].y == pos.y,
        after.rows@[written].modified == now,
        before.rows@.len() <= after.rows@.len() <= before.rows@.len() + 1,
        after.rows@.len() == before.rows@.len() + 1 ==> written == before.rows@.len(),
        forall|j: int|
            0 <= j < before.rows@.len() && j != written ==> #[trigger] after.rows@[j]
                == before.rows@[j],
        forall|j: int| before.row_at(j, pos) ==> (#[trigger] before.rows@[j]).modified <= now,
        forall|j: int|
            before.row_at(j, pos) && j > written ==> (#[trigger] before.rows@[j]).modified < now,
    ensures
        after.newest_modified(written, pos),
        forall|i: int| after.newest_modified(i, pos) ==> i == written,
{
    assert forall|j: int| after.row_at(j, pos) implies (#[trigger] after.rows@[j]).modified
        < after.rows@[written].modified || (after.rows@[j].modified == after.rows@[written].modified
        && j <= written) by {
        if j != written {
            assert(after.rows@[j] == before.rows@[j]);
            assert(before.row_at(j, pos));
        }
    }
    assert forall|i: int| after.newest_modified(i, pos) implies i == written by {
        assert(after.row_at(written, pos));
        assert(after.row_at(i, pos));
    }
}

/// An RGBA image without its transparency.
pub open spec fn rgb_of_rgba(rgba: Seq<u8>) -> Seq<u8> {
    Seq::new((rgba.len() / 4 * 3) as nat, |i: int| rgba[(i / 3) * 4 + i % 3])
}

/// An RGBA image without its transparency.
pub fn rgba_to_rgb(rgba: &[u8]) -> (rgb: Vec<u8>)
    requires
        rgba@.len() % 4 == 0,
    ensures
        rgb@ == rgb_of_rgba(rgba@),
{
    let pixels = rgba.len() / 4;
    let mut rgb: Vec<u8> = Vec::with_capacity(pixels * 3);
    let mut p: usize = 0;
    while p < pixels
        invariant
            p <= pixels,
            pixels == rgba@.len() / 4,
            rgba@.len() % 4 == 0,
            rgba@.len() <= usize::MAX,
            rgb@.len() == p * 3,
            forall|i: int| 0 <= i < p * 3 ==> rgb@[i] == rgb_of_rgba(rgba@)[i],
        decreases pixels - p,
    {
        rgb.push(rgba[p * 4]);
        rgb.push(rgba[p * 4 + 1]);
        rgb.push(rgba[p * 4 + 2]);
        p += 1;
    }
    assert(rgb@ =~= rgb_of_rgba(rgba@));
    rgb
}

/// The block of the base of a chunk, made from what storage holds of it:
/// the stored block itself where it holds a chunk without transparency,
/// and a block of the same pixels without their transparency where it
/// holds a chunk with transparency. What holds neither gives nothing.
pub fn stored_chunk_block(data: Vec<u8>) -> (block: Option<Vec<u8>>)
    ensures
        match lz4_unblock(data@, 262144) {
            Some(image) => if image.len() == 262144 {
                bytes_of(block) == Some(lz4_block(rgb_of_rgba(image)))
            } else if image.len() == 196608 {
                bytes_of(block) == Some(data@)
            } else {
                block is None
            },
            None => block is None,
        },
{
    match decompress_lz4(data.as_slice(), 262144) {
        Some(image) => {
            if image.len() == 262144 {
                let rgb = rgba_to_rgb(image.as_slice());
                Some(compress_lz4(rgb.as_slice()))
            } else if image.len() == 196608 {
                Some(data)
            } else {
                None
            }
        },
        None => None,
    }
}

} // verus!
