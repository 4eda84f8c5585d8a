use std::time::Duration;

use cloudflare_quick_tunnel::edge::{EdgeIp, EdgeSocket};
use cloudflare_quick_tunnel::pool::{Acquired, Pool};

const PORT: u16 = 8080;

fn secs(s: u64) -> Duration {
    Duration::from_secs(s)
}

fn reused(got: Acquired<u32>) -> Option<u32> {
    match got {
        Acquired::Reused(stream) => Some(stream),
        Acquired::Connect(addr) => {
            assert_eq!(addr, EdgeSocket { ip: EdgeIp::V4([127, 0, 0, 1]), port: PORT });
            None
        }
    }
}

/// Pool hits should reuse the same connection.
#[test]
fn acquire_after_release_returns_same_stream() {
    let mut pool: Pool<u32> = Pool::new(PORT);
    assert_eq!(reused(pool.acquire(secs(1))), None);
    pool.release(71, secs(1));
    assert_eq!(reused(pool.acquire(secs(1))), Some(71), "should reuse socket");
}

#[test]
fn pool_evicts_stale_entries() {
    let mut pool: Pool<u32> = Pool::new(PORT).with_idle_ttl(Duration::from_millis(50));
    pool.release(71, Duration::from_millis(0));
    assert_eq!(
        reused(pool.acquire(Duration::from_millis(100))),
        None,
        "stale entry should have been evicted"
    );
}

#[test]
fn entry_counts_until_its_ttl_is_over() {
    let mut pool: Pool<u32> = Pool::new(PORT);
    pool.release(1, secs(10));
    assert_eq!(reused(pool.acquire(secs(40))), Some(1));
    pool.release(1, secs(10));
    let over = Duration::from_nanos(40_000_000_001);
    assert_eq!(reused(pool.acquire(over)), None);
}

#[test]
fn newest_release_comes_first() {
    let mut pool: Pool<u32> = Pool::new(PORT);
    pool.release(1, secs(1));
    pool.release(2, secs(2));
    pool.release(3, secs(3));
    assert_eq!(reused(pool.acquire(secs(4))), Some(3));
    assert_eq!(reused(pool.acquire(secs(4))), Some(2));
    pool.release(4, secs(5));
    assert_eq!(reused(pool.acquire(secs(5))), Some(4));
    assert_eq!(reused(pool.acquire(secs(5))), Some(1));
    assert_eq!(reused(pool.acquire(secs(5))), None);
}

#[test]
fn stale_newest_empties_the_pool() {
    let mut pool: Pool<u32> = Pool::new(PORT);
    pool.release(1, secs(1));
    pool.release(2, secs(2));
    assert_eq!(reused(pool.acquire(secs(33))), None);
    assert_eq!(reused(pool.acquire(secs(2))), None);
}

#[test]
fn acquire_reaps_a_stale_entry_under_a_fresh_one() {
    let mut pool: Pool<u32> = Pool::new(PORT);
    pool.release(1, secs(1));
    pool.release(2, secs(20));
    assert_eq!(reused(pool.acquire(secs(40))), Some(2));
    // An earlier reading, at which the first would still count, finds nothing.
    assert_eq!(reused(pool.acquire(secs(2))), None);
}

#[test]
fn acquire_reaps_between_fresh_entries() {
    let mut pool: Pool<u32> = Pool::new(PORT);
    for (stream, at) in [(1, 20), (2, 1), (3, 21), (4, 2), (5, 22), (6, 3)] {
        pool.release(stream, secs(at));
    }
    assert_eq!(reused(pool.acquire(secs(40))), Some(5));
    assert_eq!(reused(pool.acquire(secs(4))), Some(3));
    assert_eq!(reused(pool.acquire(secs(4))), Some(1));
    assert_eq!(reused(pool.acquire(secs(4))), None);
}

#[test]
fn reaped_entries_make_room() {
    let mut pool: Pool<u32> = Pool::new(PORT);
    for stream in 0..15 {
        pool.release(stream, secs(1));
    }
    pool.release(15, secs(20));
    assert_eq!(reused(pool.acquire(secs(40))), Some(15));
    for stream in 20..40 {
        pool.release(stream, secs(40));
    }
    for stream in (20..36).rev() {
        assert_eq!(reused(pool.acquire(secs(40))), Some(stream));
    }
    assert_eq!(reused(pool.acquire(secs(40))), None);
}

#[test]
fn release_before_the_reading_counts_as_fresh() {
    let mut pool: Pool<u32> = Pool::new(PORT);
    pool.release(1, secs(9));
    assert_eq!(reused(pool.acquire(secs(3))), Some(1));
}

#[test]
fn full_pool_drops_the_released_stream() {
    let mut pool: Pool<u32> = Pool::new(PORT);
    for stream in 0..20 {
        pool.release(stream, secs(1));
    }
    for stream in (0..16).rev() {
        assert_eq!(reused(pool.acquire(secs(1))), Some(stream));
    }
    assert_eq!(reused(pool.acquire(secs(1))), None);
}
