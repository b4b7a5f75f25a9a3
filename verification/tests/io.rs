use dvdsrc::dvdio::{dvd_read_count, seek_current_fits, CacheRead, CacheSeekReader, DvdReadPlan, ProperDvdReader, CACHE_SIZE};
use dvdsrc::index_manager::{index_dir, lower_hex, IndexManager};

fn content(n: usize) -> Vec<u8> {
    (0..n).map(|i| (i % 251) as u8).collect()
}

#[test]
fn cache_misses_until_filled() {
    let mut c = CacheSeekReader::new(());
    assert_eq!(c.position(), 0);
    let mut buf = [0u8; 16];
    assert_eq!(c.read_cached(&mut buf), CacheRead::Miss);
    assert_eq!(buf, [0u8; 16]);
}

#[test]
fn cache_serves_inner_bytes() {
    let file = content(100_000);
    let mut c = CacheSeekReader::new(());
    c.seek_start(5000);
    c.refill(&file[5000..5000 + CACHE_SIZE]);
    let mut buf = [0u8; 100];
    assert_eq!(c.read_cached(&mut buf), CacheRead::Served(100));
    assert_eq!(&buf[..], &file[5000..5100]);
    assert_eq!(c.position(), 5100);
    // a read reaching past the cache stops at its end
    c.seek_start(5000 + CACHE_SIZE as u64 - 10);
    assert_eq!(c.read_cached(&mut buf), CacheRead::Served(10));
    assert_eq!(&buf[..10], &file[5000 + CACHE_SIZE - 10..5000 + CACHE_SIZE]);
    assert_eq!(c.read_cached(&mut buf), CacheRead::Miss);
    c.seek_start(4999);
    assert_eq!(c.read_cached(&mut buf), CacheRead::Miss);
}

#[test]
fn cache_short_fill_is_malformed_past_its_end() {
    let file = content(300);
    let mut c = CacheSeekReader::new(());
    c.refill(&file[..300]);
    let mut buf = [0u8; 1000];
    assert_eq!(c.read_cached(&mut buf), CacheRead::Served(300));
    assert_eq!(&buf[..300], &file[..]);
    assert_eq!(buf[300], 0);
    c.seek_start(301);
    assert!(!c.can_read_cached());
    c.seek_start(300);
    assert!(c.can_read_cached());
}

#[test]
fn cache_refill_serves_next_read() {
    let file = content(50_000);
    let mut c = CacheSeekReader::new(());
    c.seek_start(777);
    let mut buf = [0u8; 64];
    assert_eq!(c.read_cached(&mut buf), CacheRead::Miss);
    c.refill(&file[777..]);
    assert_eq!(c.read_cached(&mut buf), CacheRead::Served(64));
    assert_eq!(&buf[..], &file[777..841]);
    // an empty refill at the end of the file serves an empty read
    let mut c = CacheSeekReader::new(());
    c.seek_start(50_000);
    c.refill(&file[50_000..]);
    assert_eq!(c.read_cached(&mut buf), CacheRead::Served(0));
}

#[test]
fn cache_seek_current() {
    let mut c = CacheSeekReader::new(());
    c.seek_start(100);
    assert_eq!(c.seek_current(-40), 60);
    assert_eq!(c.seek_current(1), 61);
    assert_eq!(c.position(), 61);
    c.seek_start(u64::MAX);
    assert_eq!(c.seek_current(1), 0);
    assert!(seek_current_fits(i64::MAX as u64, 0));
    assert!(!seek_current_fits(i64::MAX as u64, 1));
    assert!(!seek_current_fits(i64::MIN as u64, -1));
}

#[test]
fn sector_counts() {
    assert_eq!(dvd_read_count(4 * 2048, 10, 2), Some(4));
    assert_eq!(dvd_read_count(4 * 2048, 10, 8), Some(2));
    assert_eq!(dvd_read_count(4 * 2048, 10, 10), None);
    assert_eq!(dvd_read_count(0, 10, 0), None);
}

#[test]
fn proper_reader_plans() {
    let mut r = ProperDvdReader::new(());
    assert_eq!(r.position(), 0);
    assert_eq!(r.plan_read(3 * 2048 + 5), DvdReadPlan::Direct { block: 0, len: 3 * 2048 });
    assert_eq!(r.plan_read(100), DvdReadPlan::Partial { block: 0, offset: 0, wanted: 100 });
    r.seek_start(2048 + 2000);
    assert_eq!(r.plan_read(4096), DvdReadPlan::Partial { block: 1, offset: 2000, wanted: 48 });
    assert_eq!(r.plan_read(10), DvdReadPlan::Partial { block: 1, offset: 2000, wanted: 10 });
}

#[test]
fn proper_reader_moves_on() {
    let mut r = ProperDvdReader::new(());
    assert_eq!(r.finish_direct(Some(3)), 3 * 2048);
    assert_eq!(r.position(), 3 * 2048);
    assert_eq!(r.finish_direct(None), 0);
    assert_eq!(r.position(), 3 * 2048);
    let sector = content(2048);
    let mut buf = [0xEEu8; 64];
    r.seek_start(2048 + 2000);
    assert_eq!(r.finish_partial(&sector, 2000, 48, &mut buf), 48);
    assert_eq!(&buf[..48], &sector[2000..2048]);
    assert_eq!(buf[48], 0xEE);
    assert_eq!(r.position(), 4096);
    assert_eq!(r.seek_current(-4096), 0);
    r.seek_start(u64::MAX - 10);
    assert_eq!(r.finish_partial(&sector, 0, 10, &mut buf), 10);
    assert_eq!(r.position(), u64::MAX);
}

#[test]
fn hex_names() {
    assert_eq!(lower_hex(0), "0");
    assert_eq!(lower_hex(255), "ff");
    assert_eq!(lower_hex(0x1234_abcd), "1234abcd");
    assert_eq!(lower_hex(u64::MAX), "ffffffffffffffff");
    assert_eq!(lower_hex(0x0A), format!("{:x}", 0x0Au64));
}

#[test]
fn index_directory_under_cache() {
    let md = "/home/u/.cache/dvdsrc2";
    let d = index_dir(md, 0xabc);
    assert_eq!(d.len(), md.len() + 4);
    assert!(d.starts_with(md) && d.ends_with("abc"));
    assert!(matches!(d.as_bytes()[md.len()], b'/' | b'\\'));
    let m = IndexManager::with_dir(String::from("/tmp/cache"));
    let a = m.get_dir("/media/disc");
    let b = m.get_dir("/media/disc");
    let c = m.get_dir("/media/other");
    assert_eq!(a, b);
    assert_ne!(a, c);
    let name = a.strip_prefix("/tmp/cache/").unwrap();
    assert!(!name.is_empty());
    assert!(name.chars().all(|ch| ch.is_ascii_hexdigit() && !ch.is_ascii_uppercase()));
}

#[test]
fn seeking_back_returns() {
    let mut c = CacheSeekReader::new(());
    c.seek_start(12345);
    for e in [-12345i64, 1, 1_000_000, -5] {
        let before = c.position();
        c.seek_current(e);
        c.seek_current(-e);
        assert_eq!(c.position(), before);
    }
    let mut r = ProperDvdReader::new(());
    r.seek_start(u64::MAX - 3);
    r.seek_current(10);
    r.seek_current(-10);
    assert_eq!(r.position(), u64::MAX - 3);
}

/// A cached read over `file` as the plugin makes it, counting the reads of
/// the inner reader.
fn cached_read(c: &mut CacheSeekReader<()>, file: &[u8], buf: &mut [u8], inner_reads: &mut usize) -> usize {
    assert!(c.can_read_cached());
    match c.read_cached(buf) {
        CacheRead::Served(n) => n,
        CacheRead::Miss => {
            *inner_reads += 1;
            let pos = c.position() as usize;
            let end = file.len().min(pos + CACHE_SIZE);
            let data = if pos < file.len() { &file[pos..end] } else { &file[0..0] };
            c.fill_and_read(data, buf)
        }
    }
}

#[test]
fn cache_reads_inner_only_on_misses() {
    let file = content(100_000);
    let mut c = CacheSeekReader::new(());
    let mut inner_reads = 0;
    let mut buf = [0u8; 1000];
    // the first read misses and fills the cache from position 0
    assert_eq!(cached_read(&mut c, &file, &mut buf, &mut inner_reads), 1000);
    assert_eq!(inner_reads, 1);
    assert_eq!(&buf[..], &file[..1000]);
    // reads within the filled bytes need no inner read
    c.seek_start(CACHE_SIZE as u64 - 10);
    assert_eq!(cached_read(&mut c, &file, &mut buf, &mut inner_reads), 10);
    assert_eq!(inner_reads, 1);
    // a read at the end of the cached span misses
    assert_eq!(cached_read(&mut c, &file, &mut buf, &mut inner_reads), 1000);
    assert_eq!(inner_reads, 2);
    assert_eq!(&buf[..], &file[CACHE_SIZE..CACHE_SIZE + 1000]);
    // a read before the cached span misses too
    c.seek_start(5);
    assert_eq!(cached_read(&mut c, &file, &mut buf, &mut inner_reads), 1000);
    assert_eq!(inner_reads, 3);
    // a miss near the end of the file gives what is left
    c.seek_start(99_500);
    assert_eq!(cached_read(&mut c, &file, &mut buf, &mut inner_reads), 500);
    assert_eq!(&buf[..500], &file[99_500..]);
}
