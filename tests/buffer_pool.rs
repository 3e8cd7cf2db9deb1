use buffer_pool::buffer::{BufferPool, BufferPoolManager, Error, Fetch, PageHandle};
use buffer_pool::disk::{PageId, PAGE_SIZE};
use std::collections::HashMap;

#[derive(Debug, PartialEq)]
enum DiskOp {
    Read(u64),
    Write(u64, Vec<u8>),
}

struct MemDisk {
    pages: HashMap<u64, Vec<u8>>,
    log: Vec<DiskOp>,
}

impl MemDisk {
    fn with_pages(ids: &[u64]) -> MemDisk {
        let mut pages = HashMap::new();
        for &id in ids {
            pages.insert(id, vec![id as u8; PAGE_SIZE]);
        }
        MemDisk { pages, log: Vec::new() }
    }
}

fn fetch(mgr: &mut BufferPoolManager, disk: &mut MemDisk, id: u64) -> Result<PageHandle, Error> {
    match mgr.fetch_page(PageId(id))? {
        Fetch::Hit(h) => Ok(h),
        Fetch::Miss(mut load) => {
            if let Some(bytes) = load.write_back() {
                let old = load.evicted_page_id().0;
                disk.log.push(DiskOp::Write(old, bytes.clone()));
                disk.pages.insert(old, bytes.clone());
                load = mgr.write_back_done(load, Ok(()))?;
            }
            disk.log.push(DiskOp::Read(id));
            let data = disk.pages.get(&id).cloned().unwrap_or_else(|| vec![0u8; PAGE_SIZE]);
            mgr.complete_load(load, Ok(data))
        }
    }
}

fn ok<T>(r: Result<T, Error>) -> T {
    match r {
        Ok(v) => v,
        Err(Error::NoFreeBuffer) => panic!("no free buffer"),
        Err(Error::Io(e)) => panic!("io: {}", e),
    }
}

fn usage_of(mgr: &BufferPoolManager, id: u64) -> u64 {
    let b = mgr.lookup(PageId(id)).expect("resident");
    mgr.frame(b).usage_count()
}

#[test]
fn clock_sweep_two_frames_scenario() {
    let (a, b, c) = (10u64, 11u64, 12u64);
    let mut disk = MemDisk::with_pages(&[a, b, c]);
    let mut mgr = BufferPoolManager::new(2);
    let ha = ok(fetch(&mut mgr, &mut disk, a));
    assert_eq!(ha.buffer_id().index(), 0);
    assert_eq!(usage_of(&mgr, a), 1);
    mgr.release(ha);
    let hb = ok(fetch(&mut mgr, &mut disk, b));
    assert_eq!(hb.buffer_id().index(), 1);
    assert_eq!(usage_of(&mgr, b), 1);
    mgr.release(hb);
    disk.log.clear();
    let hc = ok(fetch(&mut mgr, &mut disk, c));
    assert_eq!(hc.buffer_id().index(), 0);
    assert_eq!(disk.log, vec![DiskOp::Read(c)]);
    assert_eq!(mgr.resident_count(), 2);
    assert_eq!(mgr.lookup(PageId(b)).map(|x| x.index()), Some(1));
    assert_eq!(mgr.lookup(PageId(c)).map(|x| x.index()), Some(0));
    assert!(mgr.lookup(PageId(a)).is_none());
    assert_eq!(mgr.page(&hc), &vec![c as u8; PAGE_SIZE][..]);
}

#[test]
fn cursor_stays_on_victim_when_both_held() {
    let (a, b, c) = (10u64, 11u64, 12u64);
    let mut disk = MemDisk::with_pages(&[a, b, c]);
    let mut mgr = BufferPoolManager::new(2);
    let ha = ok(fetch(&mut mgr, &mut disk, a));
    let hb = ok(fetch(&mut mgr, &mut disk, b));
    assert_eq!(hb.buffer_id().index(), 1);
    mgr.release(ha);
    mgr.release(hb);
    // the sweep resumes on frame 1, which runs out of credit first
    let hc = ok(fetch(&mut mgr, &mut disk, c));
    assert_eq!(hc.buffer_id().index(), 1);
    assert_eq!(mgr.lookup(PageId(a)).map(|x| x.index()), Some(0));
    assert!(mgr.lookup(PageId(b)).is_none());
}

#[test]
fn dirty_page_written_back_before_reuse() {
    let (a, b, c) = (1u64, 2u64, 3u64);
    let mut disk = MemDisk::with_pages(&[a, b, c]);
    let mut mgr = BufferPoolManager::new(2);
    let ha = ok(fetch(&mut mgr, &mut disk, a));
    mgr.write_bytes(&ha, 5, &[0xAB, 0xCD]);
    mgr.mark_dirty(&ha);
    let mut expected = vec![a as u8; PAGE_SIZE];
    expected[5] = 0xAB;
    expected[6] = 0xCD;
    assert_eq!(mgr.page(&ha), &expected[..]);
    mgr.release(ha);
    let hb = ok(fetch(&mut mgr, &mut disk, b));
    mgr.release(hb);
    disk.log.clear();
    let hc = ok(fetch(&mut mgr, &mut disk, c));
    assert_eq!(hc.buffer_id().index(), 0);
    assert_eq!(disk.log, vec![DiskOp::Write(a, expected.clone()), DiskOp::Read(c)]);
    assert_eq!(disk.pages.get(&a), Some(&expected));
    assert!(!mgr.frame(hc.buffer_id()).buffer().is_dirty);
}

#[test]
fn miss_on_fresh_pool_reads_once() {
    let mut disk = MemDisk::with_pages(&[7]);
    let mut mgr = BufferPoolManager::new(4);
    match mgr.fetch_page(PageId(7)) {
        Ok(Fetch::Miss(load)) => {
            assert!(load.write_back().is_none());
            assert_eq!(load.buffer_id().index(), 0);
            assert_eq!(load.page_id(), PageId(7));
            assert_eq!(load.evicted_page_id(), PageId::invalid());
            assert!(mgr.load_is_current(&load));
        }
        _ => panic!("expected a miss"),
    }
    let mut mgr = BufferPoolManager::new(4);
    let _h = ok(fetch(&mut mgr, &mut disk, 7));
    assert_eq!(disk.log, vec![DiskOp::Read(7)]);
}

#[test]
fn repeated_hits_raise_usage_without_disk() {
    let mut disk = MemDisk::with_pages(&[1]);
    let mut mgr = BufferPoolManager::new(2);
    let h0 = ok(fetch(&mut mgr, &mut disk, 1));
    disk.log.clear();
    let mut last = usage_of(&mgr, 1);
    let mut handles = vec![h0];
    for _ in 0..5 {
        match mgr.fetch_page(PageId(1)) {
            Ok(Fetch::Hit(h)) => handles.push(h),
            _ => panic!("expected a hit"),
        }
        let now = usage_of(&mgr, 1);
        assert!(now > last);
        last = now;
    }
    assert_eq!(last, 6);
    assert!(disk.log.is_empty());
    let b = mgr.lookup(PageId(1)).unwrap();
    assert_eq!(mgr.frame(b).pin_count(), 6);
    for h in handles {
        assert!(mgr.holds(&h));
        mgr.release(h);
    }
    assert_eq!(mgr.frame(b).pin_count(), 0);
}

#[test]
fn all_pinned_gives_no_free_buffer() {
    let mut disk = MemDisk::with_pages(&[1, 2, 3]);
    let mut mgr = BufferPoolManager::new(2);
    let _h1 = ok(fetch(&mut mgr, &mut disk, 1));
    let _h2 = ok(fetch(&mut mgr, &mut disk, 2));
    disk.log.clear();
    assert!(matches!(fetch(&mut mgr, &mut disk, 3), Err(Error::NoFreeBuffer)));
    assert!(disk.log.is_empty());
    assert_eq!(usage_of(&mgr, 1), 1);
    assert_eq!(usage_of(&mgr, 2), 1);
    assert!(mgr.lookup(PageId(3)).is_none());
}

#[test]
fn evict_on_fresh_pool_takes_cursor_frame() {
    let mut pool = BufferPool::new(3);
    assert_eq!(pool.size(), 3);
    let v = pool.evict().expect("victim");
    assert_eq!(v.index(), 0);
    let again = pool.evict().expect("victim");
    assert_eq!(again.index(), 0);
}

#[test]
fn increment_id_wraps() {
    let mut pool = BufferPool::new(3);
    let v = pool.evict().unwrap();
    let n1 = pool.increment_id(v);
    let n2 = pool.increment_id(n1);
    let n3 = pool.increment_id(n2);
    assert_eq!((n1.index(), n2.index(), n3.index()), (1, 2, 0));
    assert_eq!(pool.frame(n1).usage_count(), 0);
}

#[test]
fn refilled_frame_gets_second_chance() {
    let mut disk = MemDisk::with_pages(&[1, 2, 3]);
    let mut mgr = BufferPoolManager::new(3);
    let h1 = ok(fetch(&mut mgr, &mut disk, 1));
    assert_eq!(h1.buffer_id().index(), 0);
    // the refilled frame is passed by, the next one is chosen
    let h2 = ok(fetch(&mut mgr, &mut disk, 2));
    assert_eq!(h2.buffer_id().index(), 1);
    mgr.release(h1);
    mgr.release(h2);
    let h3 = ok(fetch(&mut mgr, &mut disk, 3));
    assert_eq!(h3.buffer_id().index(), 2);
}

#[test]
fn single_frame_pool_reuses_its_frame() {
    let mut disk = MemDisk::with_pages(&[1, 2]);
    let mut mgr = BufferPoolManager::new(1);
    let h1 = ok(fetch(&mut mgr, &mut disk, 1));
    assert!(matches!(mgr.fetch_page(PageId(2)), Err(Error::NoFreeBuffer)));
    mgr.release(h1);
    let h2 = ok(fetch(&mut mgr, &mut disk, 2));
    assert_eq!(h2.buffer_id().index(), 0);
    assert!(mgr.lookup(PageId(1)).is_none());
    assert_eq!(mgr.resident_count(), 1);
}

#[test]
fn failed_write_back_leaves_frame_unchanged() {
    let mut disk = MemDisk::with_pages(&[1, 2]);
    let mut mgr = BufferPoolManager::new(1);
    let h1 = ok(fetch(&mut mgr, &mut disk, 1));
    mgr.mark_dirty(&h1);
    mgr.release(h1);
    let load = match mgr.fetch_page(PageId(2)) {
        Ok(Fetch::Miss(l)) => l,
        _ => panic!("expected a miss"),
    };
    assert_eq!(load.evicted_page_id(), PageId(1));
    assert!(load.write_back().is_some());
    let err = std::io::Error::new(std::io::ErrorKind::Other, "disk full");
    match mgr.write_back_done(load, Err(err)) {
        Err(Error::Io(e)) => assert_eq!(e.to_string(), "disk full"),
        _ => panic!("expected an I/O error"),
    }
    let b = mgr.lookup(PageId(1)).expect("still resident");
    assert!(mgr.frame(b).buffer().is_dirty);
    assert_eq!(mgr.frame(b).buffer().page_id, PageId(1));
    assert!(mgr.lookup(PageId(2)).is_none());
}

#[test]
fn failed_read_registers_nothing() {
    let mut mgr = BufferPoolManager::new(2);
    let load = match mgr.fetch_page(PageId(9)) {
        Ok(Fetch::Miss(l)) => l,
        _ => panic!("expected a miss"),
    };
    let err = std::io::Error::new(std::io::ErrorKind::UnexpectedEof, "short read");
    assert!(matches!(mgr.complete_load(load, Err(err)), Err(Error::Io(_))));
    assert!(mgr.lookup(PageId(9)).is_none());
    assert_eq!(mgr.resident_count(), 0);
}

#[test]
fn stale_load_is_detected() {
    let mut disk = MemDisk::with_pages(&[1, 2]);
    let mut mgr = BufferPoolManager::new(1);
    let load = match mgr.fetch_page(PageId(1)) {
        Ok(Fetch::Miss(l)) => l,
        _ => panic!("expected a miss"),
    };
    assert!(mgr.load_is_current(&load));
    let _h2 = ok(fetch(&mut mgr, &mut disk, 2));
    assert!(!mgr.load_is_current(&load));
    assert!(mgr.can_pin(PageId(2)));
    assert!(mgr.can_pin(PageId(1)));
}

#[test]
fn page_id_validity() {
    assert!(PageId(0).is_valid());
    assert!(!PageId::invalid().is_valid());
    assert_eq!(PageId::invalid(), PageId(u64::MAX));
}
