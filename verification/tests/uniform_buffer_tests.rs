use ruffle::uniform_buffer::{aligned_uniforms_size, UniformBuffer, UniformSlot, BLOCK_SIZE};

#[test]
fn uniform_sizes_round_up_to_the_alignment() {
    assert_eq!(aligned_uniforms_size(1, 256), 256);
    assert_eq!(aligned_uniforms_size(256, 256), 256);
    assert_eq!(aligned_uniforms_size(257, 256), 512);
    assert_eq!(aligned_uniforms_size(0, 256), 0);
    assert_eq!(aligned_uniforms_size(100, 64), 128);
    assert_eq!(aligned_uniforms_size(7, 1), 7);
}

#[test]
fn first_draw_allocates_the_first_block() {
    let mut b = UniformBuffer::new(80, 256);
    assert_eq!(b.block_count(), 0);
    assert_eq!(b.write_uniforms(), UniformSlot { allocate_block: true, block: 0, offset: 0 });
    assert_eq!(b.write_uniforms(), UniformSlot { allocate_block: false, block: 0, offset: 256 });
    assert_eq!(b.block_count(), 1);
}

#[test]
fn a_full_block_moves_on_to_the_next() {
    let mut b = UniformBuffer::new(200, 256);
    let per_block = BLOCK_SIZE / 256;
    for i in 0..per_block {
        let slot = b.write_uniforms();
        assert_eq!(slot, UniformSlot { allocate_block: i == 0, block: 0, offset: i * 256 });
    }
    assert_eq!(b.write_uniforms(), UniformSlot { allocate_block: true, block: 1, offset: 0 });
    assert_eq!(b.block_count(), 2);
}

#[test]
fn a_block_that_cannot_hold_another_draw_is_left() {
    // 3 * 20000 fits in a block; a fourth would not.
    let mut b = UniformBuffer::new(20000, 16);
    assert_eq!(b.write_uniforms().offset, 0);
    assert_eq!(b.write_uniforms().offset, 20000);
    assert_eq!(b.write_uniforms(), UniformSlot { allocate_block: false, block: 0, offset: 40000 });
    assert_eq!(b.write_uniforms(), UniformSlot { allocate_block: true, block: 1, offset: 0 });
}

#[test]
fn reset_reuses_the_blocks() {
    let mut b = UniformBuffer::new(30000, 256);
    b.write_uniforms();
    b.write_uniforms();
    b.write_uniforms();
    assert_eq!(b.block_count(), 2);
    b.reset();
    assert_eq!(b.write_uniforms(), UniformSlot { allocate_block: false, block: 0, offset: 0 });
    assert_eq!(b.write_uniforms(), UniformSlot { allocate_block: false, block: 0, offset: 30208 });
    assert_eq!(b.write_uniforms(), UniformSlot { allocate_block: false, block: 1, offset: 0 });
    assert_eq!(b.write_uniforms(), UniformSlot { allocate_block: false, block: 1, offset: 30208 });
    assert_eq!(b.write_uniforms(), UniformSlot { allocate_block: true, block: 2, offset: 0 });
}
