use mandelbrot::bands::{band_plan, rows_per_band, Band};
use mandelbrot::bounds::PixelBounds;
use mandelbrot::render::{band_chunk_len, new_buffer, pixel_index};

fn bounds(width: usize, height: usize) -> PixelBounds {
    PixelBounds::new(width, height).expect("well-formed bounds")
}

#[test]
fn rows_per_band_is_exact_ceiling() {
    assert_eq!(rows_per_band(100, 8), 13);
    assert_eq!(rows_per_band(100, 4), 25);
    assert_eq!(rows_per_band(100, 1), 100);
    assert_eq!(rows_per_band(1, 8), 1);
    assert_eq!(rows_per_band(7, 3), 3);
}

#[test]
fn band_plan_examples() {
    let plan = band_plan(bounds(10, 100), 8);
    assert_eq!(plan.len(), 8);
    assert_eq!(plan[0], Band { top: 0, height: 13 });
    assert_eq!(plan[7], Band { top: 91, height: 9 });

    // a height divisible by the thread count wastes no slot
    let plan = band_plan(bounds(10, 100), 4);
    assert_eq!(plan.len(), 4);
    assert!(plan.iter().all(|b| b.height == 25));

    // more threads than rows: one band per row
    let plan = band_plan(bounds(10, 3), 8);
    assert_eq!(plan.len(), 3);
    assert!(plan.iter().all(|b| b.height == 1));

    // a single thread gets the whole raster
    let plan = band_plan(bounds(10, 100), 1);
    assert_eq!(plan.len(), 1);
    assert_eq!(plan[0], Band { top: 0, height: 100 });
}

#[test]
fn band_plan_partitions_rows() {
    for &(height, threads) in
        &[(1usize, 1usize), (1, 7), (5, 2), (7, 3), (100, 8), (100, 4), (33, 33), (33, 40)]
    {
        let plan = band_plan(bounds(3, height), threads);
        assert!(!plan.is_empty() && plan.len() <= threads);
        let mut seen = vec![0usize; height];
        for b in &plan {
            assert!(b.height > 0);
            for row in b.top..b.top + b.height {
                assert!(row < height);
                seen[row] += 1;
            }
        }
        for row in 0..height {
            assert_eq!(seen[row], 1, "row {row} of height {height}, threads {threads}");
        }
    }
}

#[test]
fn new_buffer_size_and_contents() {
    let b = bounds(100, 100);
    let buf = new_buffer(b);
    assert_eq!(buf.len(), 100 * 100);
    assert!(buf.iter().all(|&v| v == 0));
    let b = bounds(3, 2);
    assert_eq!(new_buffer(b).len(), 6);
}

#[test]
fn pixel_index_row_major() {
    let b = bounds(100, 50);
    assert_eq!(pixel_index(b, 0, 0), 0);
    assert_eq!(pixel_index(b, 0, 99), 99);
    assert_eq!(pixel_index(b, 1, 0), 100);
    assert_eq!(pixel_index(b, 49, 99), 4999);
}

#[test]
fn chunks_match_band_plan() {
    for &(width, height, threads) in &[(10usize, 100usize, 8usize), (7, 13, 4), (3, 5, 9)] {
        let b = bounds(width, height);
        let plan = band_plan(b, threads);
        let chunk = band_chunk_len(b, threads);
        let buf = new_buffer(b);
        let chunks: Vec<&[u8]> = buf.chunks(chunk).collect();
        assert_eq!(chunks.len(), plan.len());
        for (band, chunk) in plan.iter().zip(chunks.iter()) {
            assert_eq!(chunk.len(), band.height * width);
        }
    }
}

// The determinism the renderer promises, exercised on an integer raster:
// filling band by band gives the same buffer for every thread count.
#[test]
fn band_fill_independent_of_thread_count() {
    let width = 9usize;
    let height = 31usize;
    let b = bounds(width, height);
    let fill = |row: usize, col: usize| -> u8 { ((row * 31 + col * 7) % 251) as u8 };
    let mut reference: Option<Vec<u8>> = None;
    for threads in [1usize, 2, 3, 8, 40] {
        let mut buf = new_buffer(b);
        for band in band_plan(b, threads) {
            for row in band.top..band.top + band.height {
                for col in 0..width {
                    buf[pixel_index(b, row, col)] = fill(row, col);
                }
            }
        }
        match &reference {
            None => reference = Some(buf),
            Some(r) => assert_eq!(r, &buf, "threads {threads}"),
        }
    }
}
