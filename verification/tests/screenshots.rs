use layer_compositor::geometry::Size;
use layer_compositor::gpu::screenshot::{unpad, BufferDimensions, ROW_ALIGNMENT};

#[test]
fn rows_are_aligned_as_the_device_asks() {
    assert_eq!(ROW_ALIGNMENT, wgpu::COPY_BYTES_PER_ROW_ALIGNMENT as usize);
    let dimensions = BufferDimensions::new(Size { width: 64, height: 3 });
    assert_eq!(dimensions.unpadded_bytes_per_row, 256);
    assert_eq!(dimensions.padded_bytes_per_row, 256);
    let dimensions = BufferDimensions::new(Size { width: 65, height: 3 });
    assert_eq!(dimensions.unpadded_bytes_per_row, 260);
    assert_eq!(dimensions.padded_bytes_per_row, 512);
    assert_eq!(dimensions.buffer_size(), 1536);
    let dimensions = BufferDimensions::new(Size { width: 1, height: 2 });
    assert_eq!(dimensions.unpadded_bytes_per_row, 4);
    assert_eq!(dimensions.padded_bytes_per_row, 256);
    let dimensions = BufferDimensions::new(Size { width: 0, height: 2 });
    assert_eq!(dimensions.padded_bytes_per_row, 0);
    assert_eq!(dimensions.buffer_size(), 0);
}

#[test]
fn unpadding_keeps_every_pixel() {
    let dimensions = BufferDimensions::new(Size { width: 2, height: 3 });
    let mut bytes = vec![255u8; 3 * 256];
    for y in 0..3 {
        for x in 0..8 {
            bytes[y * 256 + x] = (10 * y + x) as u8;
        }
    }
    let pixels = unpad(&bytes, dimensions);
    assert_eq!(
        pixels,
        vec![0, 1, 2, 3, 4, 5, 6, 7, 10, 11, 12, 13, 14, 15, 16, 17, 20, 21, 22, 23, 24, 25, 26, 27]
    );
}

#[test]
fn an_empty_target_has_no_pixels() {
    let dimensions = BufferDimensions::new(Size { width: 5, height: 0 });
    assert!(unpad(&[], dimensions).is_empty());
}
