use nipahblocks::chunk::{Block, Chunk, ChunkId, COLUMNS, HEIGHT, SIZE};

fn flat(height: u16) -> Vec<u16> {
    vec![height; COLUMNS]
}

#[test]
fn block_index_formula() {
    assert_eq!(Chunk::get_block_index(0, 0, 0), 0);
    assert_eq!(Chunk::get_block_index(1, 2, 3), 3 * 256 + 2 * 16 + 1);
    assert_eq!(Chunk::get_block_index(15, 15, 255), SIZE - 1);
}

#[test]
fn starting_position_is_centred_grid() {
    assert_eq!(ChunkId { x: 0, y: 0 }.starting_position(), (-8, -8));
    assert_eq!(ChunkId { x: 2, y: -3 }.starting_position(), (24, -56));
    assert_eq!(ChunkId { x: i16::MIN, y: i16::MAX }.starting_position(), (-524296, 524264));
}

#[test]
fn column_positions_follow_the_flat_order() {
    let cols = ChunkId { x: 1, y: -1 }.column_positions();
    assert_eq!(cols.len(), COLUMNS);
    assert_eq!(cols[0], (8, -24));
    assert_eq!(cols[1], (9, -24));
    assert_eq!(cols[16], (8, -23));
    assert_eq!(cols[255], (23, -9));
}

#[test]
fn column_is_layered_surface_subsurface_fill() {
    let c = Chunk::new(ChunkId { x: 0, y: 0 }, &flat(100));
    assert_eq!(c.blocks.len(), SIZE);
    let at = |z: usize| c.blocks[Chunk::get_block_index(3, 4, z)];
    assert_eq!(at(100), None);
    assert_eq!(at(255), None);
    assert_eq!(at(99), Some(Block(3)));
    assert_eq!(at(98), Some(Block(2)));
    assert_eq!(at(96), Some(Block(2)));
    assert_eq!(at(95), Some(Block(1)));
    assert_eq!(at(0), Some(Block(1)));
}

#[test]
fn each_column_uses_its_own_height() {
    let mut heights = flat(64);
    heights[5 * 16 + 2] = 128;
    let c = Chunk::new(ChunkId { x: -4, y: 7 }, &heights);
    assert_eq!(c.id, ChunkId { x: -4, y: 7 });
    assert_eq!(c.blocks[Chunk::get_block_index(2, 5, 127)], Some(Block(3)));
    assert_eq!(c.blocks[Chunk::get_block_index(2, 5, 64)], Some(Block(1)));
    assert_eq!(c.blocks[Chunk::get_block_index(3, 5, 64)], None);
    assert_eq!(c.blocks[Chunk::get_block_index(3, 5, 63)], Some(Block(3)));
}

#[test]
fn empty_and_full_height_chunks() {
    let empty = Chunk::new(ChunkId { x: 0, y: 0 }, &flat(0));
    assert!(empty.blocks.iter().all(|b| b.is_none()));
    let full = Chunk::new(ChunkId { x: 0, y: 0 }, &flat(HEIGHT as u16));
    assert!(full.blocks.iter().all(|b| b.is_some()));
    assert_eq!(full.blocks[Chunk::get_block_index(0, 0, 255)], Some(Block(3)));
    assert_eq!(full.blocks[Chunk::get_block_index(0, 0, 252)], Some(Block(2)));
    assert_eq!(full.blocks[Chunk::get_block_index(0, 0, 251)], Some(Block(1)));
}

#[test]
fn generation_is_deterministic() {
    let heights: Vec<u16> = (0..COLUMNS).map(|c| 64 + (c % 65) as u16).collect();
    let id = ChunkId { x: 12, y: -9 };
    let a = Chunk::new(id, &heights);
    let b = Chunk::new(id, &heights);
    assert_eq!(a, b);
    assert_eq!(a.duplicate(), a);
}
