use kvcache::cache::LruCache;
use kvcache::service::CacheSrv;
use kvcache::types::{CacheCommand, Command, CommandResult};

#[test]
fn test_puts_in_cache() {
    let value = "message".to_string().as_bytes().to_vec();
    let cache = LruCache::new(8);
    let mut service = CacheSrv { cache: cache };
    let request = CacheCommand {
        command: Command::PUT,
        key: "key".to_string(),
        value: value.clone(),
        length: value.iter().len() as u64,
    };

    let response = service.call(request);
    assert_eq!(response.response_type, CommandResult::SUCCESS);
    assert_eq!(response.length, 0);
    assert_eq!(response.data, vec![]);
    assert_eq!(service.cache.get(&"key".to_string()), Some(&value));
}

#[test]
fn test_gets_from_cache() {
    let key = "key".to_string();
    let value = "message".to_string().as_bytes().to_vec();
    let mut service = CacheSrv { cache: LruCache::new(8) };
    service.cache.put(key.clone(), value.clone());

    let request = CacheCommand { command: Command::GET, key: key.clone(), value: vec![], length: 0 };

    let response = service.call(request);
    assert_eq!(response.response_type, CommandResult::SUCCESS);
    assert_eq!(response.length, value.iter().len() as u64);
    assert_eq!(response.data, value);
}

#[test]
fn test_get_not_present() {
    let mut service = CacheSrv { cache: LruCache::new(8) };

    let request =
        CacheCommand { command: Command::GET, key: "key".to_string(), value: vec![], length: 0 };

    let msg = "Not Found".to_string().as_bytes().to_vec();
    let response = service.call(request);
    assert_eq!(response.response_type, CommandResult::FAILURE);
    assert_eq!(response.length, msg.iter().len() as u64);
    assert_eq!(response.data, msg);
}

#[test]
fn get_of_an_absent_key_fails_with_not_found() {
    let mut service = CacheSrv { cache: LruCache::new(64) };
    let request =
        CacheCommand { command: Command::GET, key: "absent".to_string(), value: vec![], length: 0 };
    let response = service.call(request);
    assert_eq!(response.response_type, CommandResult::FAILURE);
    assert_eq!(response.length, 9);
    assert_eq!(response.data, b"Not Found".to_vec());
    assert_eq!(service.cache.total_bytes(), 0);
}

#[test]
fn oversized_put_succeeds_and_stores_nothing() {
    let mut service = CacheSrv { cache: LruCache::new(4) };
    let request = CacheCommand {
        command: Command::PUT,
        key: "big".to_string(),
        value: vec![1, 2, 3, 4, 5],
        length: 5,
    };
    let response = service.call(request);
    assert_eq!(response.response_type, CommandResult::SUCCESS);
    assert_eq!(response.length, 0);
    assert_eq!(response.data, vec![]);

    let request =
        CacheCommand { command: Command::GET, key: "big".to_string(), value: vec![], length: 0 };
    let response = service.call(request);
    assert_eq!(response.response_type, CommandResult::FAILURE);
}

#[test]
fn get_counts_as_a_use() {
    let mut service = CacheSrv { cache: LruCache::new(2) };
    for (key, byte) in [("a", 1u8), ("b", 2u8)] {
        service.call(CacheCommand {
            command: Command::PUT,
            key: key.to_string(),
            value: vec![byte],
            length: 1,
        });
    }
    let hit = service.call(CacheCommand {
        command: Command::GET,
        key: "a".to_string(),
        value: vec![],
        length: 0,
    });
    assert_eq!(hit.response_type, CommandResult::SUCCESS);
    assert_eq!(hit.length, 1);
    assert_eq!(hit.data, vec![1]);
    service.call(CacheCommand {
        command: Command::PUT,
        key: "c".to_string(),
        value: vec![3],
        length: 1,
    });
    assert_eq!(service.cache.get(&"b".to_string()), None);
    assert_eq!(service.cache.get(&"a".to_string()), Some(&vec![1]));
}
