use thumbor::cache::FetchCache;
use thumbor::cache::FetchError;
use thumbor::cache::status_class;

/// A stand-in for the network: hands out fixed bytes per URL and counts how
/// often it is asked.
struct CountingSource {
    calls: usize,
}

impl CountingSource {
    fn new() -> Self {
        CountingSource { calls: 0 }
    }

    fn fetch(&mut self, url: &str) -> Vec<u8> {
        self.calls += 1;
        url.as_bytes().to_vec()
    }
}

/// The get-or-fetch protocol around the cache: a miss is exactly the case in
/// which the source is consulted, and what arrived is stored.
fn get_via(cache: &mut FetchCache, source: &mut CountingSource, url: &str) -> Vec<u8> {
    match cache.lookup(url) {
        Some(data) => data,
        None => {
            let data = source.fetch(url);
            cache.store(url, data.clone());
            data
        }
    }
}

#[test]
fn hit_avoids_refetch() {
    let mut cache = FetchCache::new(8);
    let mut source = CountingSource::new();
    let a = get_via(&mut cache, &mut source, "http://example.org/a.jpeg");
    let b = get_via(&mut cache, &mut source, "http://example.org/a.jpeg");
    assert_eq!(a, b);
    assert_eq!(source.calls, 1);
}

#[test]
fn distinct_urls_fetch_separately() {
    let mut cache = FetchCache::new(8);
    let mut source = CountingSource::new();
    get_via(&mut cache, &mut source, "http://example.org/a.jpeg");
    get_via(&mut cache, &mut source, "http://example.org/b.jpeg");
    assert_eq!(source.calls, 2);
}

#[test]
fn lookup_returns_stored_bytes() {
    let mut cache = FetchCache::new(4);
    cache.store("http://example.org/x", vec![1, 2, 3]);
    assert_eq!(cache.lookup("http://example.org/x"), Some(vec![1, 2, 3]));
    assert_eq!(cache.lookup("http://example.org/y"), None);
}

#[test]
fn store_replaces_value_under_same_url() {
    let mut cache = FetchCache::new(4);
    cache.store("http://example.org/x", vec![1]);
    cache.store("http://example.org/x", vec![2]);
    assert_eq!(cache.lookup("http://example.org/x"), Some(vec![2]));
}

#[test]
fn eviction_drops_least_recently_used() {
    let mut cache = FetchCache::new(2);
    cache.store("u1", vec![1]);
    cache.store("u2", vec![2]);
    cache.store("u3", vec![3]);
    assert_eq!(cache.lookup("u1"), None);
    assert_eq!(cache.lookup("u2"), Some(vec![2]));
    assert_eq!(cache.lookup("u3"), Some(vec![3]));
}

#[test]
fn lookup_protects_entry_from_next_eviction() {
    let mut cache = FetchCache::new(2);
    cache.store("u1", vec![1]);
    cache.store("u2", vec![2]);
    // Touch u1 so u2 becomes the least recently used entry.
    assert_eq!(cache.lookup("u1"), Some(vec![1]));
    cache.store("u3", vec![3]);
    assert_eq!(cache.lookup("u2"), None);
    assert_eq!(cache.lookup("u1"), Some(vec![1]));
    assert_eq!(cache.lookup("u3"), Some(vec![3]));
}

#[test]
fn eviction_counts_refetches() {
    let mut cache = FetchCache::new(2);
    let mut source = CountingSource::new();
    get_via(&mut cache, &mut source, "u1");
    get_via(&mut cache, &mut source, "u2");
    get_via(&mut cache, &mut source, "u3");
    get_via(&mut cache, &mut source, "u1");
    assert_eq!(source.calls, 4);
}

#[test]
fn status_class_splits_at_success_range() {
    assert_eq!(status_class(200), Ok(()));
    assert_eq!(status_class(204), Ok(()));
    assert_eq!(status_class(299), Ok(()));
    assert_eq!(status_class(199), Err(FetchError::NonSuccessStatus));
    assert_eq!(status_class(300), Err(FetchError::NonSuccessStatus));
    assert_eq!(status_class(404), Err(FetchError::NonSuccessStatus));
    assert_eq!(status_class(500), Err(FetchError::NonSuccessStatus));
}
