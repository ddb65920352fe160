use emergence::render::{flatten_colors, frame_to_bytes};
use emergence::world::World;

fn packed(c: (u8, u8, u8)) -> u32 {
    ((c.0 as u32) << 16) | ((c.1 as u32) << 8) | (c.2 as u32)
}

#[test]
fn draw_fills_every_pixel_block() {
    let mut w = World::new(2, 4, 2, 21);
    w._set((0, 0), 1);
    w._set((1, 0), 2);
    w._set((0, 1), 3);
    let palette: Vec<(u8, u8, u8)> = w.symbol_to_color().clone();
    // Window side 4 = 2 * grid side: each cell becomes a 2x2 block.
    let mut buffer = vec![0u32; 16];
    w.draw_to_buffer(&mut buffer);
    for wy in 0..4usize {
        for wx in 0..4usize {
            let cell_symbol = w.data()[(wy / 2) * 2 + (wx / 2)] as usize;
            assert_eq!(buffer[wy * 4 + wx], packed(palette[cell_symbol]));
        }
    }
}

#[test]
fn draw_at_matching_size_is_one_pixel_per_cell() {
    let mut w = World::new(2, 4, 2, 22);
    w._set((1, 1), 3);
    let palette: Vec<(u8, u8, u8)> = w.symbol_to_color().clone();
    let mut buffer = vec![0u32; 4];
    w.draw_to_buffer(&mut buffer);
    for i in 0..4usize {
        assert_eq!(buffer[i], packed(palette[w.data()[i] as usize]));
    }
}

#[test]
fn flatten_colors_interleaves_channels() {
    let colors = vec![(1u8, 2u8, 3u8), (9u8, 8u8, 7u8)];
    assert_eq!(flatten_colors(&colors), vec![1, 2, 3, 9, 8, 7]);
}

#[test]
fn frame_to_bytes_keeps_low_byte() {
    let frame = vec![0u32, 5, 255, 256, 257];
    assert_eq!(frame_to_bytes(&frame), vec![0, 5, 255, 0, 1]);
}
