use rav::frame::{Frame, PixelFormat};
use rav::pool::FramePoolStore;
use rav::time::Pts;

#[test]
fn test_pool_basic() {
    let mut pool = FramePoolStore::new(PixelFormat::Yuv420p, 1920, 1080, 4);
    assert_eq!(pool.len(), 0);
    assert!(pool.is_empty());
    let frame1 = pool.get();
    assert_eq!(frame1.width, 1920);
    assert_eq!(frame1.height, 1080);
    pool.put(frame1);
    assert_eq!(pool.len(), 1);
    let frame2 = pool.get();
    assert_eq!(pool.len(), 0);
    pool.put(frame2);
    assert_eq!(pool.len(), 1);
}

#[test]
fn test_pool_max_size() {
    let mut pool = FramePoolStore::new(PixelFormat::Yuv420p, 640, 480, 2);
    let f1 = pool.get();
    let f2 = pool.get();
    let f3 = pool.get();
    pool.put(f1);
    pool.put(f2);
    pool.put(f3);
    assert_eq!(pool.len(), 2);
    assert_eq!(pool.capacity(), 2);
}

#[test]
fn pool_store_rejects_other_sizes_and_resets_reused() {
    let mut pool = FramePoolStore::new(PixelFormat::Yuv420p, 64, 32, 4);
    pool.put(Frame::new_video(32, 32, PixelFormat::Yuv420p));
    pool.put(Frame::new_video(64, 32, PixelFormat::Rgb24));
    assert_eq!(pool.len(), 0);
    let mut f = pool.get();
    f.pts = Some(Pts::new(7));
    f.duration = Some(3);
    pool.put(f);
    let g = pool.get();
    assert_eq!(g.pts, None);
    assert_eq!(g.duration, None);
    pool.put(g);
    pool.clear();
    assert!(pool.is_empty());
}
