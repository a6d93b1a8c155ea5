use bloom::backend::derive_cache_key;
use bloom::backend::Backend;
use bloom::backend::Reply;
use bloom::config::ConfigRedis;
use bloom::store::interpret_get_reply;
use bloom::store::CachePurgeVariant;
use bloom::store::CacheStore;
use bloom::store::CacheStoreBuilder;
use bloom::store::CacheStoreError;
use bloom::store::Command;
use bloom::store::ROUTE_PREFIX;

fn store(max_key_size: usize, max_key_expiration: usize) -> CacheStore {
    CacheStoreBuilder::new(&ConfigRedis {
        host: "127.0.0.1".to_owned(),
        port: 6379,
        password: None,
        database: 0,
        pool_size: 8,
        idle_timeout_seconds: 600,
        connection_timeout_seconds: 5,
        max_key_size,
        max_key_expiration,
    })
}

#[test]
fn set_then_get_round_trips() {
    let s = store(1024, 3600);
    let mut b = Backend::new();
    let r = s.set(&mut b, "k1", "m1", "hello world", 60, vec!["tag:a".to_owned()]);
    assert!(matches!(r, Ok(None)));
    let g = s.get(&b, "k1");
    assert_eq!(g.unwrap().unwrap(), "hello world");
}

#[test]
fn get_on_never_written_key_is_none() {
    let s = store(1024, 3600);
    let b = Backend::new();
    assert!(matches!(s.get(&b, "nothing-here"), Ok(None)));
}

#[test]
fn ttl_above_maximum_is_capped() {
    let s = store(1024, 3600);
    let mut b = Backend::new();
    s.set(&mut b, "k1", "m1", "v", 7200, vec![]).unwrap();
    assert_eq!(b.ttl_secs("k1"), Some(3600));
}

#[test]
fn ttl_below_maximum_is_kept() {
    let s = store(1024, 3600);
    let mut b = Backend::new();
    s.set(&mut b, "k2", "m2", "v", 60, vec![]).unwrap();
    assert_eq!(b.ttl_secs("k2"), Some(60));
}

#[test]
fn tag_record_expiry_is_the_maximum() {
    let s = store(1024, 3600);
    let mut b = Backend::new();
    s.set(&mut b, "k1", "m1", "v", 60, vec!["tag:a".to_owned()]).unwrap();
    assert_eq!(b.ttl_secs("tag:a"), Some(3600));
}

#[test]
fn oversized_value_is_refused_and_nothing_written() {
    let s = store(4, 3600);
    let mut b = Backend::new();
    let r = s.set(&mut b, "k1", "m1", "toolong", 60, vec!["tag:a".to_owned()]);
    assert!(matches!(r, Err(CacheStoreError::TooLarge)));
    assert!(matches!(s.get(&b, "k1"), Ok(None)));
    assert_eq!(b.ttl_secs("tag:a"), None);
}

#[test]
fn oversized_value_keeps_prior_value() {
    let s = store(5, 3600);
    let mut b = Backend::new();
    s.set(&mut b, "k1", "m1", "prior", 60, vec![]).unwrap();
    let r = s.set(&mut b, "k1", "m1", "toolong", 60, vec![]);
    assert!(matches!(r, Err(CacheStoreError::TooLarge)));
    assert_eq!(s.get(&b, "k1").unwrap().unwrap(), "prior");
}

#[test]
fn invalid_bytes_read_as_corrupted() {
    let s = store(1024, 3600);
    let mut b = Backend::new();
    b.setex("k1", vec![0xff, 0xfe, 0x41], 60);
    assert!(matches!(s.get(&b, "k1"), Err(CacheStoreError::Corrupted)));
}

#[test]
fn member_set_key_reads_as_invalid() {
    let s = store(1024, 3600);
    let mut b = Backend::new();
    assert!(b.sadd("tag:a", "m1"));
    assert!(matches!(s.get(&b, "tag:a"), Err(CacheStoreError::Invalid)));
}

#[test]
fn purge_removes_only_the_tagged_entries() {
    let s = store(1024, 3600);
    let mut b = Backend::new();
    let ka = derive_cache_key(ROUTE_PREFIX, 0, "ma");
    let kb = derive_cache_key(ROUTE_PREFIX, 0, "mb");
    let kc = derive_cache_key(ROUTE_PREFIX, 0, "mc");
    s.set(&mut b, ka.as_str(), "ma", "A", 60, vec!["tag:t".to_owned()]).unwrap();
    s.set(&mut b, kb.as_str(), "mb", "B", 60, vec!["tag:t".to_owned()]).unwrap();
    s.set(&mut b, kc.as_str(), "mc", "C", 60, vec!["tag:u".to_owned()]).unwrap();
    let r = s.purge_tag(&mut b, &CachePurgeVariant::Bucket, 0, "tag:t");
    assert!(matches!(r, Ok(None)));
    assert!(matches!(s.get(&b, ka.as_str()), Ok(None)));
    assert!(matches!(s.get(&b, kb.as_str()), Ok(None)));
    assert_eq!(s.get(&b, kc.as_str()).unwrap().unwrap(), "C");
}

#[test]
fn purge_is_idempotent_and_safe_on_empty_tags() {
    let s = store(1024, 3600);
    let mut b = Backend::new();
    s.set(&mut b, "unrelated", "m", "v", 60, vec![]).unwrap();
    let r1 = s.purge_tag(&mut b, &CachePurgeVariant::Auth, 1, "tag:empty");
    assert!(matches!(r1, Ok(None)));
    let r2 = s.purge_tag(&mut b, &CachePurgeVariant::Auth, 1, "tag:empty");
    assert!(matches!(r2, Ok(None)));
    assert_eq!(s.get(&b, "unrelated").unwrap().unwrap(), "v");
}

#[test]
fn purge_twice_in_a_row_succeeds_both_times() {
    let s = store(1024, 3600);
    let mut b = Backend::new();
    let ka = derive_cache_key(ROUTE_PREFIX, 2, "ma");
    s.set(&mut b, ka.as_str(), "ma", "A", 60, vec!["tag:t".to_owned()]).unwrap();
    assert!(matches!(s.purge_tag(&mut b, &CachePurgeVariant::Bucket, 2, "tag:t"), Ok(None)));
    assert!(matches!(s.purge_tag(&mut b, &CachePurgeVariant::Bucket, 2, "tag:t"), Ok(None)));
    assert!(matches!(s.get(&b, ka.as_str()), Ok(None)));
}

#[test]
fn purge_of_a_value_key_fails() {
    let s = store(1024, 3600);
    let mut b = Backend::new();
    s.set(&mut b, "plain", "m", "v", 60, vec![]).unwrap();
    let r = s.purge_tag(&mut b, &CachePurgeVariant::Bucket, 0, "plain");
    assert!(matches!(r, Err(CacheStoreError::Failed)));
    assert_eq!(s.get(&b, "plain").unwrap().unwrap(), "v");
}

#[test]
fn set_with_tag_colliding_with_value_key_fails() {
    let s = store(1024, 3600);
    let mut b = Backend::new();
    s.set(&mut b, "x", "mx", "old", 60, vec![]).unwrap();
    let r = s.set(&mut b, "y", "my", "new", 60, vec!["x".to_owned()]);
    assert!(matches!(r, Err(CacheStoreError::Failed)));
    assert!(matches!(s.get(&b, "y"), Ok(None)));
}

#[test]
fn set_whose_tag_is_its_own_key_fails() {
    let s = store(1024, 3600);
    let mut b = Backend::new();
    let r = s.set(&mut b, "z", "mz", "v", 60, vec!["z".to_owned()]);
    assert!(matches!(r, Err(CacheStoreError::Failed)));
    assert!(matches!(s.get(&b, "z"), Ok(None)));
}

#[test]
fn set_completing_before_purge_loses_its_entry() {
    let s = store(1024, 3600);
    let mut b = Backend::new();
    let key = derive_cache_key(ROUTE_PREFIX, 3, "mask");
    s.set(&mut b, key.as_str(), "mask", "v", 60, vec!["tag:t".to_owned()]).unwrap();
    assert!(matches!(s.purge_tag(&mut b, &CachePurgeVariant::Bucket, 3, "tag:t"), Ok(None)));
    assert!(matches!(s.get(&b, key.as_str()), Ok(None)));
}

#[test]
fn set_beginning_after_purge_is_kept() {
    let s = store(1024, 3600);
    let mut b = Backend::new();
    let key = derive_cache_key(ROUTE_PREFIX, 3, "mask");
    assert!(matches!(s.purge_tag(&mut b, &CachePurgeVariant::Bucket, 3, "tag:t"), Ok(None)));
    s.set(&mut b, key.as_str(), "mask", "v", 60, vec!["tag:t".to_owned()]).unwrap();
    assert_eq!(s.get(&b, key.as_str()).unwrap().unwrap(), "v");
}

#[test]
fn builder_assembles_connection_url_with_password() {
    let s = CacheStoreBuilder::new(&ConfigRedis {
        host: "10.0.0.1".to_owned(),
        port: 6379,
        password: Some("SECRET-REDACTED".to_owned()),
        database: 2,
        pool_size: 8,
        idle_timeout_seconds: 600,
        connection_timeout_seconds: 5,
        max_key_size: 1024,
        max_key_expiration: 3600,
    });
    assert_eq!(s.url, "redis://:SECRET-REDACTED@10.0.0.1:6379/2");
}

#[test]
fn builder_assembles_connection_url_without_password() {
    let s = store(1024, 3600);
    assert_eq!(s.url, "redis://127.0.0.1:6379/0");
}

#[test]
fn derived_key_has_four_segments() {
    assert_eq!(derive_cache_key("bloom", 7, "mask"), "bloom:7:c:mask");
}

#[test]
fn all_purge_variants_share_the_invalidation_script() {
    let bucket = CachePurgeVariant::Bucket.get_script();
    let auth = CachePurgeVariant::Auth.get_script();
    assert_eq!(bucket, auth);
    assert!(bucket.contains("SMEMBERS"));
    assert!(bucket.contains("DEL"));
}

#[test]
fn reply_interpretation_covers_every_shape() {
    assert_eq!(interpret_get_reply(Reply::Data(b"ok".to_vec())).unwrap().unwrap(), "ok");
    assert!(matches!(interpret_get_reply(Reply::Nil), Ok(None)));
    assert!(matches!(
        interpret_get_reply(Reply::Other),
        Err(CacheStoreError::Invalid)
    ));
    assert!(matches!(
        interpret_get_reply(Reply::Data(vec![0x80])),
        Err(CacheStoreError::Corrupted)
    ));
}

#[test]
fn write_batch_has_the_pipelined_shape() {
    let s = store(1024, 3600);
    let tags = vec!["t1".to_owned(), "t2".to_owned()];
    let cmds = s.set_commands("k", "m", "v", 7200, &tags).unwrap();
    assert_eq!(cmds.len(), 5);
    match &cmds[0] {
        Command::SetEx { key, value, ttl } => {
            assert_eq!(key, "k");
            assert_eq!(value.as_slice(), b"v");
            assert_eq!(*ttl, 3600);
        },
        _ => panic!("first command must store the entry"),
    }
    match &cmds[1] {
        Command::SAdd { key, member } => {
            assert_eq!(key, "t1");
            assert_eq!(member, "m");
        },
        _ => panic!("second command must register the mask"),
    }
    match &cmds[2] {
        Command::Expire { key, ttl } => {
            assert_eq!(key, "t1");
            assert_eq!(*ttl, 3600);
        },
        _ => panic!("third command must refresh the tag expiry"),
    }
    match &cmds[3] {
        Command::SAdd { key, .. } => assert_eq!(key, "t2"),
        _ => panic!("fourth command must register the mask"),
    }
    assert!(s.set_commands("k", "m", "far too long", 7200, &tags).is_some());
    let small = store(4, 3600);
    assert!(small.set_commands("k", "m", "far too long", 7200, &tags).is_none());
}
